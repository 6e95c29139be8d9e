use vstd::prelude::*;

verus! {

/// Error codes: 0..99 are analysis errors, 100..199 trade errors,
/// 200..299 K-line data errors.
#[derive(Debug, Clone, Copy, PartialEq, Eq, Structural)]
pub enum ErrCode {
    ChanErrBegin,
    CommonError,
    SrcDataNotFound,
    SrcDataTypeErr,
    ParaError,
    ExtraKluErr,
    SegEndValueErr,
    SegEigenErr,
    BiErr,
    CombinerErr,
    PlotErr,
    ModelError,
    SegLenErr,
    EnvConfErr,
    UnknownDbType,
    FeatureError,
    ConfigError,
    SrcDataFormatError,
    ChanErrEnd,
    TradeErrBegin,
    SignalExisted,
    RecordNotExist,
    RecordAlreadyOpened,
    QuotaNotEnough,
    RecordNotOpened,
    TradeUnlockFail,
    PlaceOrderFail,
    ListOrderFail,
    CandelOrderFail,
    GetFutuPriceFail,
    GetFutuLotSizeFail,
    OpenRecordNotWatching,
    GetHoldingQtyFail,
    RecordClosed,
    RequestTradingDaysFail,
    CoverOrderIdNotUnique,
    SignalTraded,
    TradeErrEnd,
    KlErrBegin,
    PriceBelowZero,
    KlDataNotAlign,
    KlDataInvalid,
    KlTimeInconsistent,
    TradeinfoTooMuchZero,
    KlNotMonotonous,
    SnapshotErr,
    Suspension,
    StockIpoTooLate,
    NoData,
    StockNotActive,
    StockPriceNotActive,
    KlErrEnd,
}

/// The numeric value of each error code.
pub open spec fn spec_err_code(c: ErrCode) -> int {
    match c {
        ErrCode::ChanErrBegin => 0,
        ErrCode::CommonError => 1,
        ErrCode::SrcDataNotFound => 3,
        ErrCode::SrcDataTypeErr => 4,
        ErrCode::ParaError => 5,
        ErrCode::ExtraKluErr => 6,
        ErrCode::SegEndValueErr => 7,
        ErrCode::SegEigenErr => 8,
        ErrCode::BiErr => 9,
        ErrCode::CombinerErr => 10,
        ErrCode::PlotErr => 11,
        ErrCode::ModelError => 12,
        ErrCode::SegLenErr => 13,
        ErrCode::EnvConfErr => 14,
        ErrCode::UnknownDbType => 15,
        ErrCode::FeatureError => 16,
        ErrCode::ConfigError => 17,
        ErrCode::SrcDataFormatError => 18,
        ErrCode::ChanErrEnd => 99,
        ErrCode::TradeErrBegin => 100,
        ErrCode::SignalExisted => 101,
        ErrCode::RecordNotExist => 102,
        ErrCode::RecordAlreadyOpened => 103,
        ErrCode::QuotaNotEnough => 104,
        ErrCode::RecordNotOpened => 105,
        ErrCode::TradeUnlockFail => 106,
        ErrCode::PlaceOrderFail => 107,
        ErrCode::ListOrderFail => 108,
        ErrCode::CandelOrderFail => 109,
        ErrCode::GetFutuPriceFail => 110,
        ErrCode::GetFutuLotSizeFail => 111,
        ErrCode::OpenRecordNotWatching => 112,
        ErrCode::GetHoldingQtyFail => 113,
        ErrCode::RecordClosed => 114,
        ErrCode::RequestTradingDaysFail => 115,
        ErrCode::CoverOrderIdNotUnique => 116,
        ErrCode::SignalTraded => 117,
        ErrCode::TradeErrEnd => 199,
        ErrCode::KlErrBegin => 200,
        ErrCode::PriceBelowZero => 201,
        ErrCode::KlDataNotAlign => 202,
        ErrCode::KlDataInvalid => 203,
        ErrCode::KlTimeInconsistent => 204,
        ErrCode::TradeinfoTooMuchZero => 205,
        ErrCode::KlNotMonotonous => 206,
        ErrCode::SnapshotErr => 207,
        ErrCode::Suspension => 208,
        ErrCode::StockIpoTooLate => 209,
        ErrCode::NoData => 210,
        ErrCode::StockNotActive => 211,
        ErrCode::StockPriceNotActive => 212,
        ErrCode::KlErrEnd => 299,
    }
}

impl ErrCode {
    /// The numeric value of this error code.
    pub fn code(&self) -> (r: i32)
        ensures
            r == spec_err_code(*self),
    {
        match self {
            ErrCode::ChanErrBegin => 0,
            ErrCode::CommonError => 1,
            ErrCode::SrcDataNotFound => 3,
            ErrCode::SrcDataTypeErr => 4,
            ErrCode::ParaError => 5,
            ErrCode::ExtraKluErr => 6,
            ErrCode::SegEndValueErr => 7,
            ErrCode::SegEigenErr => 8,
            ErrCode::BiErr => 9,
            ErrCode::CombinerErr => 10,
            ErrCode::PlotErr => 11,
            ErrCode::ModelError => 12,
            ErrCode::SegLenErr => 13,
            ErrCode::EnvConfErr => 14,
            ErrCode::UnknownDbType => 15,
            ErrCode::FeatureError => 16,
            ErrCode::ConfigError => 17,
            ErrCode::SrcDataFormatError => 18,
            ErrCode::ChanErrEnd => 99,
            ErrCode::TradeErrBegin => 100,
            ErrCode::SignalExisted => 101,
            ErrCode::RecordNotExist => 102,
            ErrCode::RecordAlreadyOpened => 103,
            ErrCode::QuotaNotEnough => 104,
            ErrCode::RecordNotOpened => 105,
            ErrCode::TradeUnlockFail => 106,
            ErrCode::PlaceOrderFail => 107,
            ErrCode::ListOrderFail => 108,
            ErrCode::CandelOrderFail => 109,
            ErrCode::GetFutuPriceFail => 110,
            ErrCode::GetFutuLotSizeFail => 111,
            ErrCode::OpenRecordNotWatching => 112,
            ErrCode::GetHoldingQtyFail => 113,
            ErrCode::RecordClosed => 114,
            ErrCode::RequestTradingDaysFail => 115,
            ErrCode::CoverOrderIdNotUnique => 116,
            ErrCode::SignalTraded => 117,
            ErrCode::TradeErrEnd => 199,
            ErrCode::KlErrBegin => 200,
            ErrCode::PriceBelowZero => 201,
            ErrCode::KlDataNotAlign => 202,
            ErrCode::KlDataInvalid => 203,
            ErrCode::KlTimeInconsistent => 204,
            ErrCode::TradeinfoTooMuchZero => 205,
            ErrCode::KlNotMonotonous => 206,
            ErrCode::SnapshotErr => 207,
            ErrCode::Suspension => 208,
            ErrCode::StockIpoTooLate => 209,
            ErrCode::NoData => 210,
            ErrCode::StockNotActive => 211,
            ErrCode::StockPriceNotActive => 212,
            ErrCode::KlErrEnd => 299,
        }
    }
}

/// An error raised by the analysis, with its code and a message.
#[derive(Debug)]
pub struct CChanException {
    pub errcode: ErrCode,
    pub msg: String,
}

impl CChanException {
    pub fn new(message: String, code: ErrCode) -> (r: Self)
        ensures
            r.errcode == code,
            r.msg@ == message@,
    {
        CChanException { errcode: code, msg: message }
    }

    /// Whether the code lies strictly between the K-line data error bounds.
    pub fn is_kldata_err(&self) -> (r: bool)
        ensures
            r == (200 < spec_err_code(self.errcode) && spec_err_code(self.errcode) < 299),
    {
        ErrCode::KlErrBegin.code() < self.errcode.code() && self.errcode.code()
            < ErrCode::KlErrEnd.code()
    }

    /// Whether the code lies strictly between the analysis error bounds.
    pub fn is_chan_err(&self) -> (r: bool)
        ensures
            r == (0 < spec_err_code(self.errcode) && spec_err_code(self.errcode) < 99),
    {
        ErrCode::ChanErrBegin.code() < self.errcode.code() && self.errcode.code()
            < ErrCode::ChanErrEnd.code()
    }
}

} // verus!
