use chan::analyzer::Analyzer;
use chan::cbi_config::CBiConfig;
use chan::bsp::CBSPoint;
use chan::enums::{BI_DIR, BI_TYPE, BSP_TYPE, FX_TYPE, KLINE_DIR};
use chan::kline_unit::CKLineUnit;
use chan::seg_config::CSegConfig;
use chan::storage::{bsp_rows, history_row, record_last_bsp};
use chan::text::{bool_text, price_text, time_cell, usize_text};
use chan::zs_config::CZsConfig;
use indexmap::IndexMap;

const DAY: i64 = 86_400;
const P: i64 = 100_000_000;

fn zigzag(legs: usize, leg: usize) -> Vec<CKLineUnit> {
    let mut out = Vec::new();
    let mut p: i64 = 10 * P;
    let mut idx = 0;
    for l in 0..legs {
        for _ in 0..leg {
            let t = 1_609_459_200 + idx as i64 * DAY;
            out.push(CKLineUnit::new(t, idx, p + P / 5, p + 3 * P / 2, p, p + 13 * P / 10, false).unwrap());
            idx += 1;
            if l % 2 == 0 {
                p += P;
            } else {
                p -= P;
            }
        }
    }
    out
}

fn run(bars: &[CKLineUnit]) -> Analyzer {
    let mut a = Analyzer::new(1, CBiConfig::default_strict(), CSegConfig::default(), CZsConfig::default());
    for u in bars {
        a.add_k(*u).unwrap();
    }
    a
}

#[test]
fn test_price_text() {
    assert_eq!(price_text(1_050_000_000), "10.5");
    assert_eq!(price_text(1_100_000_000), "11");
    assert_eq!(price_text(-10_000_000), "-0.1");
    assert_eq!(price_text(5), "0.00000005");
    assert_eq!(price_text(0), "0");
    assert_eq!(price_text(1_005_000_000), "10.05");
    assert_eq!(price_text(-1_200_000_000), "-12");
}

#[test]
fn test_small_texts() {
    assert_eq!(usize_text(0), "0");
    assert_eq!(usize_text(1234), "1234");
    assert_eq!(bool_text(true), "True");
    assert_eq!(bool_text(false), "False");
    assert_eq!(time_cell(1_609_459_200), "2021-01-01 00:00");
    assert_eq!(time_cell(1_609_839_000), "2021-01-05 09:30");
    assert_eq!(KLINE_DIR::INCLUDED.text(), "INCLUDED");
    assert_eq!(FX_TYPE::BOTTOM.text(), "BOTTOM");
    assert_eq!(BI_DIR::DOWN.text(), "DOWN");
    assert_eq!(BI_TYPE::SUB_VALUE.text(), "SUB_VALUE");
}

fn point(bi: usize, klu: usize, bsp_type: Vec<BSP_TYPE>) -> CBSPoint {
    CBSPoint { bi, klu, is_buy: true, bsp_type, relate_bsp1: None, is_segbsp: false }
}

fn keys(row: &IndexMap<String, String>) -> Vec<&str> {
    row.keys().map(|k| k.as_str()).collect()
}

#[test]
fn test_to_dataframes_tables() {
    let a = run(&zigzag(10, 6));
    let p = point(1, 2, vec![BSP_TYPE::T1]);
    let frames = a.to_dataframes(&vec![p], &Vec::new(), Vec::new(), Vec::new());
    let names: Vec<&str> = frames.keys().map(|k| k.as_str()).collect();
    assert_eq!(
        names,
        vec![
            "kline_list",
            "bi_list",
            "seg_list",
            "zs_list",
            "bs_point_lst",
            "seg_seg_list",
            "seg_zs_list",
            "seg_bs_point_lst",
            "bs_point_history",
            "seg_bs_point_history"
        ]
    );
    assert_eq!(frames["kline_list"].len(), a.candle_list.lst.len());
    assert_eq!(frames["bi_list"].len(), a.bi_list.bi_list.len());
    assert_eq!(frames["seg_list"].len(), a.seg_list.lst.len());
    assert_eq!(frames["zs_list"].len(), a.zs_list.zs_lst.len());
    assert_eq!(frames["bs_point_lst"].len(), 1);
    assert_eq!(frames["bs_point_lst"][0]["bsp_type"], "1");
    assert!(frames["seg_bs_point_history"].is_empty());
}

#[test]
fn test_to_dataframes_rows() {
    let a = run(&zigzag(10, 6));
    let frames = a.to_dataframes(&Vec::new(), &Vec::new(), Vec::new(), Vec::new());
    let k0 = &frames["kline_list"][0];
    assert_eq!(keys(k0), vec!["begin_time", "end_time", "idx", "dir", "high", "low", "fx"]);
    assert_eq!(k0["begin_time"], "2021-01-01 00:00");
    assert_eq!(k0["idx"], "0");
    assert_eq!(k0["dir"], "UP");
    assert_eq!(k0["high"], "11.5");
    assert_eq!(k0["low"], "10");
    assert_eq!(k0["fx"], "UNKNOWN");

    let b0 = &frames["bi_list"][0];
    assert_eq!(
        keys(b0),
        vec![
            "begin_time",
            "end_time",
            "idx",
            "dir",
            "high",
            "low",
            "type",
            "is_sure",
            "seg_idx",
            "begin_klc",
            "end_klc",
            "begin_val",
            "end_val",
            "klu_cnt",
            "klc_cnt",
            "parent_seg_idx",
            "parent_seg_dir"
        ]
    );
    let bi = &a.bi_list.bi_list[0];
    assert_eq!(b0["idx"], "0");
    assert_eq!(b0["dir"], bi.dir.text());
    assert_eq!(b0["is_sure"], "True");
    assert_eq!(b0["begin_klc"], bi.begin_klc.to_string());
    assert_eq!(b0["klc_cnt"], (bi.end_klc - bi.begin_klc + 1).to_string());

    let s0 = &frames["seg_list"][0];
    assert_eq!(
        keys(s0),
        vec![
            "begin_time",
            "end_time",
            "idx",
            "dir",
            "high",
            "low",
            "is_sure",
            "start_bi_idx",
            "end_bi_idx",
            "zs_count",
            "bi_count",
            "reason",
            "parent_seg_idx",
            "parent_seg_dir"
        ]
    );
    let seg = &a.seg_list.lst[0];
    assert_eq!(s0["start_bi_idx"], seg.start_bi.to_string());
    assert_eq!(s0["bi_count"], (seg.end_bi - seg.start_bi + 1).to_string());
    assert_eq!(s0["reason"], seg.reason);
}

#[test]
fn test_bsp_and_history_rows() {
    let a = run(&zigzag(10, 6));
    let lines = a.bi_list.to_lines(&a.candle_list);
    let units = &a.candle_list.units;
    let mut p = point(1, 3, vec![BSP_TYPE::T2, BSP_TYPE::T3A]);
    p.relate_bsp1 = Some(0);
    let rows = bsp_rows(&vec![p], &lines, units, "bi_idx");
    assert_eq!(rows.len(), 1);
    let r = &rows[0];
    assert_eq!(keys(r), vec!["begin_time", "bsp_type", "bi_idx", "bi_begin_time", "bi_end_time", "relate_bsp1_time"]);
    assert_eq!(r["begin_time"], time_cell(units[3].time));
    assert_eq!(r["bsp_type"], "2,3a");
    assert_eq!(r["bi_idx"], "1");
    assert_eq!(r["bi_begin_time"], time_cell(units[lines[1].begin_klu].time));
    assert_eq!(r["bi_end_time"], time_cell(units[lines[1].end_klu].time));
    assert_eq!(r["relate_bsp1_time"], time_cell(units[lines[0].end_klu].time));
    let h = history_row(&point(1, 3, vec![BSP_TYPE::T1]), &lines, units, "seg_idx");
    assert_eq!(keys(&h), vec!["begin_time", "bsp_type", "is_buy", "relate_bsp1", "seg_idx", "bi_begin_time", "bi_end_time"]);
    assert_eq!(h["is_buy"], "true");
    assert_eq!(h["relate_bsp1"], "None");
    assert_eq!(h["bsp_type"], "1");
}

#[test]
fn test_record_last_bsp() {
    let a = run(&zigzag(10, 6));
    let lines = a.bi_list.to_lines(&a.candle_list);
    let units = &a.candle_list.units;
    let mut h = Vec::new();
    record_last_bsp(&mut h, &Vec::new(), &lines, units, "bi_idx");
    assert!(h.is_empty());
    let pts = vec![point(0, 1, vec![BSP_TYPE::T1]), point(2, 4, vec![BSP_TYPE::T2])];
    record_last_bsp(&mut h, &pts, &lines, units, "bi_idx");
    assert_eq!(h.len(), 1);
    assert_eq!(h[0]["bi_idx"], "2");
    assert_eq!(h[0]["bsp_type"], "2");
}
