# chan

Chan-theory market structure analysis, verified with Verus.

Bars (K-line units) are combined into K-lines without inclusion, fractals
(tops and bottoms) are marked, strokes (bi) join opposite fractals, segments
group strokes, pivots (zhongshu) are the overlapping ranges of lines, and
buy/sell points of three classes are found at both levels (over strokes,
and over segments). Prices are integers in hundred-millionths.

## Layout

- `src/` — the library; every function has a contract checked by Verus.
  - `kline_unit.rs`, `kline.rs`, `kline_list.rs`: bars, combined K-lines,
    fractals.
  - `bi.rs`, `bi_list.rs`, `bi_line.rs`, `cbi_config.rs`, `bi_config.rs`:
    strokes.
  - `line.rs`, `eigen.rs`, `eigen_fx.rs`, `seg.rs`, `seg_list.rs`,
    `seg_config.rs`: segments and their characteristic sequences.
  - `zs.rs`, `zs_list.rs`, `zs_config.rs`: pivots.
  - `bsp.rs`: buy/sell points.
  - `analyzer.rs`: the whole analysis of one period, bar by bar.
  - `ctime.rs`: bar times, calendar fields and UTC timestamps.
  - `conf_keys.rs`: where a buy/sell point settings key goes;
    `bsp_settings.rs`: the buy/sell point settings of both sides and both
    levels, read from (key, text) pairs; `chan_config.rs`: the settings of
    an analysis, read from (key, value) pairs, with their defaults.
  - `csv_api.rs`: reading rows of a bar file; `text.rs`, `storage.rs`:
    the analysis as named tables of text.
  - `laws.rs`: properties of the structures, stated and proved.
- `tests/` — tests of the library.
- `app/` — the command-line program: reads bar files, computes the MACD and
  other indicators (floating point), turns the JSON settings into the
  library's settings values, and writes the tables as CSV files.
