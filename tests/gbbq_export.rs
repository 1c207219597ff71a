use rustdx_cmd::gbbq::{
    apply_gbbq_filters, category_counts, filter_category, filter_codes, filter_dates,
    format_gbbq_date, get_gbbq_category_name, market_label, GbbqKey, GbbqRow,
};
use rustdx_cmd::gbbq_cmd::{help_topic, GbbqCmd, HelpTopic, OutputTarget};

fn cmd(category: Option<u8>, stocks: Option<&str>, range: Option<&str>) -> GbbqCmd {
    GbbqCmd {
        gbbq_file: "gbbq".to_string(),
        output: "gbbq_output.csv".to_string(),
        keep_csv: false,
        table: "rustdx.gbbq".to_string(),
        category,
        stocks: stocks.map(|s| s.to_string()),
        date_range: range.map(|s| s.to_string()),
        description: Vec::new(),
    }
}

fn key(market: u8, code: &str, date: u32, category: u8) -> GbbqKey {
    GbbqKey { market, code: code.to_string(), date, category }
}

fn sample() -> Vec<GbbqKey> {
    vec![
        key(1, "000001", 20190610, 1),
        key(1, "000001", 20200101, 1),
        key(1, "000001", 20210615, 5),
        key(1, "000002", 20220301, 1),
        key(2, "600000", 20230615, 1),
        key(1, "000001", 20231231, 1),
        key(1, "000001", 20240102, 1),
    ]
}

#[test]
fn parse_stocks_trims_each_piece() {
    let c = cmd(None, Some(" 000001, 000002 ,600000"), None);
    assert_eq!(
        c.parse_stocks(),
        Some(vec!["000001".to_string(), "000002".to_string(), "600000".to_string()])
    );
    assert_eq!(cmd(None, None, None).parse_stocks(), None);
    assert_eq!(cmd(None, Some(""), None).parse_stocks(), Some(vec![String::new()]));
    assert_eq!(
        cmd(None, Some("a,,b"), None).parse_stocks(),
        Some(vec!["a".to_string(), String::new(), "b".to_string()])
    );
}

#[test]
fn parse_date_range_cases() {
    assert_eq!(cmd(None, None, Some("20200101-20231231")).parse_date_range(), Some((20200101, 20231231)));
    assert_eq!(cmd(None, None, Some("+1-2")).parse_date_range(), Some((1, 2)));
    assert_eq!(cmd(None, None, None).parse_date_range(), None);
    assert_eq!(cmd(None, None, Some("20200101")).parse_date_range(), None);
    assert_eq!(cmd(None, None, Some("1-2-3")).parse_date_range(), None);
    assert_eq!(cmd(None, None, Some("2020a-2021")).parse_date_range(), None);
    assert_eq!(cmd(None, None, Some(" 1-2")).parse_date_range(), None);
    assert_eq!(cmd(None, None, Some("-2")).parse_date_range(), None);
    assert_eq!(cmd(None, None, Some("4294967295-4294967296")).parse_date_range(), None);
    assert_eq!(cmd(None, None, Some("0-4294967295")).parse_date_range(), Some((0, 4294967295)));
}

#[test]
fn export_filtered_by_category_code_and_window() {
    let recs = sample();
    let c = cmd(Some(1), Some("000001"), Some("20200101-20231231"));
    let picked = apply_gbbq_filters(&recs, &c);
    assert_eq!(picked, vec![1, 5]);
    for &i in &picked {
        assert_eq!(recs[i].category, 1);
        assert_eq!(recs[i].code, "000001");
    }
    assert_eq!(category_counts(&recs, &picked), vec![(1u8, 2usize)]);
}

#[test]
fn no_filters_keep_everything() {
    let recs = sample();
    let picked = apply_gbbq_filters(&recs, &cmd(None, None, None));
    assert_eq!(picked, (0..recs.len()).collect::<Vec<_>>());
    assert_eq!(category_counts(&recs, &picked), vec![(1u8, 6usize), (5u8, 1usize)]);
    assert_eq!(apply_gbbq_filters(&Vec::new(), &cmd(Some(1), None, None)), Vec::<usize>::new());
}

#[test]
fn filters_in_any_order_agree() {
    let recs = sample();
    let all: Vec<usize> = (0..recs.len()).collect();
    let stocks = Some(vec!["000001".to_string(), "600000".to_string()]);
    let range = Some((20200101u32, 20231231u32));
    let a = filter_dates(&recs, &filter_codes(&recs, &filter_category(&recs, &all, Some(1)), &stocks), range);
    let b = filter_category(&recs, &filter_dates(&recs, &filter_codes(&recs, &all, &stocks), range), Some(1));
    let c = filter_codes(&recs, &filter_category(&recs, &filter_dates(&recs, &all, range), Some(1)), &stocks);
    assert_eq!(a, vec![1, 4, 5]);
    assert_eq!(a, b);
    assert_eq!(a, c);
    let whole = apply_gbbq_filters(&recs, &cmd(Some(1), Some("000001,600000"), Some("20200101-20231231")));
    assert_eq!(a, whole);
}

#[test]
fn category_names() {
    assert_eq!(get_gbbq_category_name(1), "除权除息");
    assert_eq!(get_gbbq_category_name(10), "可转债上市");
    assert_eq!(get_gbbq_category_name(14), "送认沽权证");
    assert_eq!(get_gbbq_category_name(0), "Unknown Category (0)");
    assert_eq!(get_gbbq_category_name(200), "Unknown Category (200)");
}

#[test]
fn market_labels() {
    assert_eq!(market_label(1), "SZ");
    assert_eq!(market_label(2), "SH");
    assert_eq!(market_label(0), "0");
    assert_eq!(market_label(37), "37");
}

#[test]
fn date_text() {
    assert_eq!(format_gbbq_date(20230615), "2023-06-15");
    assert_eq!(format_gbbq_date(20240229), "2024-02-29");
    assert_eq!(format_gbbq_date(20230229), "2023-02-29");
    assert_eq!(format_gbbq_date(20231301), "2023-13-01");
    assert_eq!(format_gbbq_date(10101), "0001-01-01");
    assert_eq!(format_gbbq_date(0), "0000-00-00");
    assert_eq!(format_gbbq_date(120000101), "+12000-01-01");
    assert_eq!(format_gbbq_date(4294967295), "429496-72-95");
}

#[test]
fn row_of_record() {
    let r = GbbqRow::from_gbbq(&key(2, "600000", 20230615, 1));
    assert_eq!(r.market, "SH");
    assert_eq!(r.code, "600000");
    assert_eq!(r.date, "2023-06-15");
    assert_eq!(r.category, 1);
    assert_eq!(r.category_name, "除权除息");
}

#[test]
fn output_targets_and_help() {
    let mut c = cmd(None, None, None);
    assert_eq!(c.output_target(), OutputTarget::Csv);
    c.output = "clickhouse".to_string();
    assert_eq!(c.output_target(), OutputTarget::Clickhouse);
    c.output = "mongodb".to_string();
    assert_eq!(c.output_target(), OutputTarget::Unsupported);
    c.output = "csv".to_string();
    assert_eq!(c.output_target(), OutputTarget::Csv);
    assert_eq!(help_topic("o"), HelpTopic::Output);
    assert_eq!(help_topic("category"), HelpTopic::Category);
    assert_eq!(help_topic("s"), HelpTopic::Stocks);
    assert_eq!(help_topic("date"), HelpTopic::Date);
    assert_eq!(help_topic("x"), HelpTopic::Unknown);
    c.description = vec!["d".to_string(), "zz".to_string()];
    assert_eq!(c.help_topics(), vec![HelpTopic::Date, HelpTopic::Unknown]);
}
