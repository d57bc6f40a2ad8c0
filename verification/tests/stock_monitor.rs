use stockkit::quotes::{candle_json, parse_quote_bytes, parse_quotes, CandleJsonError};
use stockkit::text::parse_u64;
use stockkit::watchlist::{config_path, market_symbol, normalize_symbol, AppConfig, Watchlist};

fn quote_line(symbol: &str, name: &str) -> String {
    let mut fields: Vec<String> = vec![
        name.to_string(),
        "10.50".into(),
        "10.40".into(),
        "10.60".into(),
        "10.80".into(),
        "10.30".into(),
        "10.59".into(),
        "10.60".into(),
        " 123456 ".into(),
        "1300000.5".into(),
    ];
    while fields.len() < 30 {
        fields.push("0".into());
    }
    fields.push("2024-05-06".into());
    fields.push("15:00:00".into());
    fields.push("00".into());
    format!("var hq_str_{}=\"{}\";", symbol, fields.join(","))
}

#[test]
fn quote_lines_give_their_fields_by_position() {
    let text = format!("{}\r\n{}\n", quote_line("sh600519", "Moutai"), quote_line("sz000001", "PingAn"));
    let quotes = parse_quotes(&text);
    assert_eq!(quotes.len(), 2);
    let q = &quotes[0];
    assert_eq!(q.symbol, "sh600519");
    assert_eq!(q.name, "Moutai");
    assert_eq!(q.open, "10.50");
    assert_eq!(q.prev_close, "10.40");
    assert_eq!(q.price, "10.60");
    assert_eq!(q.high, "10.80");
    assert_eq!(q.low, "10.30");
    assert_eq!(q.volume, 123456);
    assert_eq!(q.amount, "1300000.5");
    assert_eq!(q.date, "2024-05-06");
    assert_eq!(q.time, "15:00:00");
    assert_eq!(quotes[1].symbol, "sz000001");
}

#[test]
fn lines_that_are_not_quotes_are_skipped() {
    let text = format!(
        "garbage\nvar hq_str_sh000001=\"\";\nvar other_sh1=\"a,b\";\nvar hq_str_sh1=\"a,b,c\";\n{}",
        quote_line("bj430047", "X")
    );
    let quotes = parse_quotes(&text);
    assert_eq!(quotes.len(), 1);
    assert_eq!(quotes[0].symbol, "bj430047");
    assert!(parse_quotes("").is_empty());
}

#[test]
fn gbk_feed_is_decoded_before_parsing() {
    let line = quote_line("sz000001", "平安银行");
    let (bytes, _, _) = encoding_rs::GBK.encode(&line);
    assert_ne!(bytes.as_ref(), line.as_bytes());
    let quotes = parse_quote_bytes(&bytes);
    assert_eq!(quotes.len(), 1);
    assert_eq!(quotes[0].name, "平安银行");
}

#[test]
fn volume_parsing_falls_back_to_zero() {
    assert_eq!(parse_u64(" 42 "), 42);
    assert_eq!(parse_u64("+7"), 7);
    assert_eq!(parse_u64("12.5"), 0);
    assert_eq!(parse_u64(""), 0);
    assert_eq!(parse_u64("-1"), 0);
    assert_eq!(parse_u64("18446744073709551615"), u64::MAX);
    assert_eq!(parse_u64("18446744073709551616"), 0);
}

#[test]
fn candle_list_is_cut_out_of_the_script_call() {
    let reply = "/*<script>*/=([{\"day\":\"2024-05-06 09:35:00\"},{\"day\":\"x\"}]);";
    assert_eq!(
        candle_json(reply).unwrap(),
        "[{\"day\":\"2024-05-06 09:35:00\"},{\"day\":\"x\"}]"
    );
    assert_eq!(candle_json("no list"), Err(CandleJsonError::NoStart));
    assert_eq!(candle_json("only [ here"), Err(CandleJsonError::NoEnd));
    assert_eq!(candle_json("] before ["), Err(CandleJsonError::BadRange));
}

#[test]
fn symbols_get_their_exchange_prefix() {
    assert_eq!(normalize_symbol("600519"), "sh600519");
    assert_eq!(normalize_symbol(" 510300 "), "sh510300");
    assert_eq!(normalize_symbol("900901"), "sh900901");
    assert_eq!(normalize_symbol("000001"), "sz000001");
    assert_eq!(normalize_symbol("300750"), "sz300750");
    assert_eq!(normalize_symbol("430047"), "bj430047");
    assert_eq!(normalize_symbol("830799"), "bj830799");
    assert_eq!(normalize_symbol("700001"), "700001");
    assert_eq!(normalize_symbol("60051"), "60051");
    assert_eq!(normalize_symbol("60051a"), "60051a");
    assert_eq!(normalize_symbol("  SH600519\t"), "sh600519");
    assert_eq!(normalize_symbol("SZ000001"), "sz000001");
    assert_eq!(normalize_symbol("bj430047"), "bj430047");
    assert_eq!(normalize_symbol("   "), "");
}

#[test]
fn default_settings() {
    let c = AppConfig::default();
    assert_eq!(c.symbols, vec!["sh000001", "sz399001", "sh600519"]);
    assert_eq!(c.rotation_interval_secs, 6);
    assert_eq!(c.quote_refresh_secs, 12);
    assert_eq!(config_path(), "stock-monitor.json");
}

#[test]
fn adding_symbols_normalizes_and_skips_repeats() {
    let mut w = Watchlist::new(AppConfig::default());
    w.input_symbol = "000858".to_string();
    assert!(w.add_symbol());
    assert_eq!(w.config.symbols.last().unwrap(), "sz000858");
    assert_eq!(w.input_symbol, "");
    w.input_symbol = " SH600519 ".to_string();
    assert!(!w.add_symbol());
    assert_eq!(w.input_symbol, " SH600519 ");
    assert_eq!(w.config.symbols.len(), 4);
    w.input_symbol = "  ".to_string();
    assert!(!w.add_symbol());
    assert_eq!(w.config.symbols.len(), 4);
}

#[test]
fn removing_a_new_symbol_gives_back_the_list() {
    let mut w = Watchlist::new(AppConfig::default());
    let before = w.config.symbols.clone();
    w.input_symbol = "600036".to_string();
    assert!(w.add_symbol());
    assert_eq!(w.config.symbols.len(), 4);
    w.remove_symbol("sh600036");
    assert_eq!(w.config.symbols, before);
}

#[test]
fn removing_a_symbol_keeps_the_index_in_range() {
    let mut w = Watchlist::new(AppConfig::default());
    w.current_index = 2;
    w.remove_symbol("sh600519");
    assert_eq!(w.config.symbols, vec!["sh000001", "sz399001"]);
    assert_eq!(w.current_index, 1);
    w.remove_symbol("nothing");
    assert_eq!(w.config.symbols.len(), 2);
    w.remove_symbol("sh000001");
    w.remove_symbol("sz399001");
    assert!(w.config.symbols.is_empty());
    assert_eq!(w.current_index, 0);
    assert_eq!(w.current_symbol(), None);
}

#[test]
fn rotation_cycles_through_the_list() {
    let mut w = Watchlist::new(AppConfig::default());
    assert_eq!(w.current_symbol(), Some("sh000001"));
    w.rotate();
    assert_eq!(w.current_symbol(), Some("sz399001"));
    w.rotate();
    w.rotate();
    assert_eq!(w.current_index, 0);
    assert_eq!(w.current_symbol(), Some("sh000001"));
    w.current_index = 7;
    assert_eq!(w.current_symbol(), Some("sz399001"));
}

#[test]
fn timers_have_floors() {
    let mut c = AppConfig::default();
    c.quote_refresh_secs = 1;
    c.rotation_interval_secs = 0;
    let w = Watchlist::new(c);
    assert!(!w.quote_refresh_due(2));
    assert!(w.quote_refresh_due(3));
    assert!(!w.rotation_due(1));
    assert!(w.rotation_due(2));
    let w = Watchlist::new(AppConfig::default());
    assert!(!w.quote_refresh_due(11));
    assert!(w.quote_refresh_due(12));
    assert!(!w.rotation_due(5));
    assert!(w.rotation_due(6));
    let mut empty = AppConfig::default();
    empty.symbols.clear();
    assert!(!Watchlist::new(empty).rotation_due(100));
}

#[test]
fn charts_are_asked_for_once() {
    let mut w = Watchlist::new(AppConfig::default());
    assert!(w.want_candles("sh000001".into(), false));
    assert_eq!(w.pending_candle_symbol.as_deref(), Some("sh000001"));
    assert!(!w.want_candles("sh000001".into(), false));
    assert!(!w.want_candles("sz399001".into(), true));
    assert!(w.want_candles("sz399001".into(), false));
    w.record_candles(Err("timeout".into()));
    assert_eq!(w.pending_candle_symbol, None);
    assert_eq!(w.error.as_deref(), Some("timeout"));
    w.record_quotes(Ok(()));
    assert_eq!(w.error, None);
}

#[test]
fn prefixing_twice_is_prefixing_once() {
    for s in ["600519", "000001", "430047", "sh600519", "abc", "700000", ""] {
        let once = market_symbol(s);
        assert_eq!(market_symbol(&once), once);
    }
    assert_eq!(market_symbol("600519"), "sh600519");
    assert_eq!(normalize_symbol(&normalize_symbol(" 000001 ")), "sz000001");
}
