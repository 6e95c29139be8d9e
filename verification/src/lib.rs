//! Chan-theory market structure analysis: K-line combination, fractals,
//! strokes (bi), segments and pivots (zhongshu), verified with Verus.
#![allow(non_camel_case_types)]

pub mod enums;
pub mod exception;
pub mod func_util;
pub mod kline_unit;
pub mod kline;
pub mod kline_list;
pub mod bi;
pub mod strutil;
pub mod cbi_config;
pub mod bi_list;
pub mod analyzer;
pub mod line;
pub mod eigen;
pub mod eigen_fx;
pub mod bi_line;
pub mod seg;
pub mod seg_config;
pub mod seg_list;
pub mod zs_config;
pub mod zs;
pub mod zs_list;
pub mod bi_config;
pub mod laws;
pub mod csv_api;
pub mod text;
pub mod storage;
pub mod bsp;
pub mod ctime;
pub mod conf_keys;
pub mod bsp_settings;
pub mod chan_config;
