use stockkit::collect::{
    config_for_code, pig_price_batches, positions_named, pig_scrape_failed_message, save_failed_message, saved_message,
    scrape_error_message, scrape_failed_message,
};
use stockkit::number::reads_as_f64;
use stockkit::report::{change_class, join_texts, last_collected, refresh_report, trend_badge};
use stockkit::scrapers::{ppi_page_price, ppi_price_from, zhujia_prices, CardFields, ScrapeError, ZhuJiaScraper, PpiScraper};
use stockkit::store::{
    collection_needed, configs_from, default_commodities, join_path, merge_plan,
    take_recent, CommodityMeta, JsonStore, LatestPrice, PriceSlot,
};
use stockkit::trend::{assess_trend, latest_streak, TrendDirection, TrendVerdict};

use TrendDirection::{Down, Flat, Up};

#[test]
fn float_texts_follow_the_documented_grammar() {
    for ok in ["1", "1.5", ".5", "1.", "+3", "-0.25", "1e5", "2.5E-3", "inf", "-Infinity", "NaN", "1e+7"] {
        assert!(reads_as_f64(ok), "{ok}");
        assert!(ok.parse::<f64>().is_ok());
    }
    for bad in ["", ".", "e5", "1e", "1.2.3", "abc", "1 ", "--1", "+", "in", "1e+"] {
        assert!(!reads_as_f64(bad), "{bad}");
        assert!(bad.parse::<f64>().is_err());
    }
}

#[test]
fn the_streak_counts_back_from_the_last_move() {
    assert_eq!(latest_streak(&[Up, Down, Up, Up, Up]), (Up, 3));
    assert_eq!(latest_streak(&[Down, Down]), (Down, 2));
    assert_eq!(latest_streak(&[Up, Up, Flat]), (Flat, 0));
    assert_eq!(latest_streak(&[]), (Flat, 0));
}

#[test]
fn a_trend_needs_twenty_prices() {
    let moves = vec![Up; 18];
    assert_eq!(assess_trend(19, &moves, Up, Up), None);
    let moves = vec![Up; 19];
    assert_eq!(
        assess_trend(20, &moves, Up, Up),
        Some(TrendVerdict { direction: Up, consecutive_days: 19, period_days: 20 })
    );
}

#[test]
fn the_verdict_needs_averages_and_five_day_rise_to_agree() {
    let mut moves = vec![Flat; 16];
    moves.extend([Down, Down, Down]);
    assert_eq!(assess_trend(20, &moves, Down, Down).unwrap().direction, Down);
    assert_eq!(assess_trend(20, &moves, Up, Up).unwrap().direction, Up);
    assert_eq!(assess_trend(20, &moves, Up, Down).unwrap().direction, Flat);
    assert_eq!(assess_trend(20, &moves, Flat, Up).unwrap().direction, Flat);
    assert_eq!(assess_trend(20, &moves, Down, Flat).unwrap().direction, Flat);
    // No streak is needed: a flat last day still gives a rising verdict.
    let moves = vec![Flat; 19];
    let v = assess_trend(20, &moves, Up, Up).unwrap();
    assert_eq!((v.direction, v.consecutive_days), (Up, 0));
    let mut moves = vec![Flat; 16];
    moves.extend([Up, Down, Down]);
    assert_eq!(assess_trend(20, &moves, Down, Down).unwrap().consecutive_days, 2);
}

#[test]
fn direction_labels() {
    assert_eq!(Up.label(), "上涨");
    assert_eq!(Down.label(), "下跌");
    assert_eq!(Flat.label(), "震荡");
}

fn texts(v: &[&str]) -> Vec<String> {
    v.iter().map(|s| s.to_string()).collect()
}

#[test]
fn merging_keeps_stored_prices_and_adds_new_dates_in_order() {
    let stored = texts(&["2024-05-02", "2024-05-04"]);
    let fresh = texts(&["2024-05-04", "2024-05-03", "2024-05-05", "2024-05-01"]);
    let plan = merge_plan(&stored, &fresh);
    assert_eq!(
        plan,
        vec![
            PriceSlot::Fresh(3),
            PriceSlot::Stored(0),
            PriceSlot::Fresh(1),
            PriceSlot::Stored(1),
            PriceSlot::Fresh(2),
        ]
    );
}

#[test]
fn the_latest_entry_after_saving_today_is_dated_today() {
    let stored = texts(&["2024-05-01", "2024-05-02"]);
    let fresh = texts(&["2024-05-03"]);
    let plan = merge_plan(&stored, &fresh);
    assert_eq!(plan.last(), Some(&PriceSlot::Fresh(0)));

    // Saving today's price again keeps the stored one as the latest.
    let stored = texts(&["2024-05-02", "2024-05-03"]);
    let plan = merge_plan(&stored, &fresh);
    assert_eq!(plan, vec![PriceSlot::Stored(0), PriceSlot::Stored(1)]);
    let latest = vec![LatestPrice::Dated(stored[1].clone())];
    assert!(!collection_needed(&latest, &"2024-05-03".to_string()));
}

#[test]
fn merging_is_stable_among_equal_dates() {
    let stored = texts(&["b", "a", "b"]);
    let fresh = texts(&["c", "c", "a"]);
    let plan = merge_plan(&stored, &fresh);
    assert_eq!(
        plan,
        vec![PriceSlot::Stored(1), PriceSlot::Stored(0), PriceSlot::Stored(2), PriceSlot::Fresh(0), PriceSlot::Fresh(1)]
    );
}

#[test]
fn saving_the_same_prices_again_adds_nothing() {
    let stored = texts(&["2024-05-01", "2024-05-02"]);
    let plan = merge_plan(&stored, &stored.clone());
    assert_eq!(plan, vec![PriceSlot::Stored(0), PriceSlot::Stored(1)]);
    assert!(merge_plan(&vec![], &vec![]).is_empty());
}

#[test]
fn recent_prices_are_the_last_ones() {
    assert_eq!(take_recent(vec![1, 2, 3, 4, 5], 2), vec![4, 5]);
    assert_eq!(take_recent(vec![1, 2, 3], 30), vec![1, 2, 3]);
    assert_eq!(take_recent(vec![1, 2, 3], 0), Vec::<i32>::new());
}

#[test]
fn price_files_live_under_the_data_directory() {
    let store = JsonStore::new("data/commodities".to_string());
    assert_eq!(store.file_path("corn"), "data/commodities/corn/prices.json");
    assert_eq!(store.data_dir(), "data/commodities");
    let store = JsonStore::new("data/".to_string());
    assert_eq!(store.file_path("corn"), "data/corn/prices.json");
    assert_eq!(join_path("data", "/abs"), "/abs");
    assert_eq!(join_path("", "x"), "x");
    let mut meta = CommodityMeta::for_code("corn");
    assert_eq!((meta.name.as_str(), meta.code.as_str(), meta.unit.as_str()), ("corn", "corn", ""));
    meta.refresh("玉米", "元/吨");
    assert_eq!((meta.name.as_str(), meta.code.as_str(), meta.unit.as_str()), ("玉米", "corn", "元/吨"));
    assert_eq!(
        std::path::Path::new("data").join("corn").join("prices.json").to_str().unwrap(),
        store.file_path("corn").replacen("data/", "data/", 1)
    );
}

#[test]
fn the_first_collection_is_owed_until_every_price_is_from_today() {
    let today = "2024-05-06".to_string();
    assert!(!collection_needed(&vec![], &today));
    assert!(!collection_needed(&vec![LatestPrice::Dated(today.clone())], &today));
    assert!(collection_needed(&vec![LatestPrice::Dated(today.clone()), LatestPrice::Missing], &today));
    assert!(collection_needed(&vec![LatestPrice::Unreadable], &today));
    assert!(collection_needed(&vec![LatestPrice::Dated("2024-05-05".into())], &today));
}

#[test]
fn the_tracked_commodities() {
    let c = default_commodities();
    let codes: Vec<&str> = c.iter().map(|c| c.code.as_str()).collect();
    assert_eq!(codes, vec!["live_pig", "corn", "soybean_meal", "titanium_dioxide", "sulfur"]);
    assert_eq!(c[0].name, "生猪");
    assert_eq!(c[0].unit, "元/公斤");
    assert_eq!(c[3].url, "https://m1.100ppi.com/Rawmex/427.html");
    let zhujia = configs_from(&c, "zhujia");
    assert_eq!(zhujia.len(), 3);
    assert_eq!(configs_from(&c, "ppi")[1].code, "sulfur");
    assert!(configs_from(&c, "none").is_empty());
}

#[test]
fn prices_are_matched_to_commodities_by_name() {
    let names = texts(&["生猪", "玉米", "生猪"]);
    assert_eq!(positions_named(&names, &"生猪".to_string()), vec![0, 2]);
    assert!(positions_named(&names, &"豆粕".to_string()).is_empty());
}

fn card(title: Option<&str>, price: Option<&str>, change: Option<&str>) -> CardFields {
    CardFields {
        title: title.map(String::from),
        price: price.map(String::from),
        change: change.map(String::from),
    }
}

#[test]
fn pig_price_cards_give_prices_of_known_commodities() {
    let cards = vec![
        card(Some("外三元"), Some(" 9.52 "), Some("0.05元")),
        card(Some("玉米"), Some("2310"), Some("报价平稳")),
        card(Some("鸡蛋"), Some("3.1"), None),
        card(Some("豆粕"), Some("n/a"), None),
        card(None, Some("1"), None),
        card(Some("豆粕"), Some("3300"), Some("-20元")),
    ];
    let prices = zhujia_prices(Some(cards), "2024-05-06".to_string()).unwrap();
    assert_eq!(prices.len(), 3);
    assert_eq!(prices[0].name, "生猪");
    assert_eq!(prices[0].unit, "元/公斤");
    assert_eq!(prices[0].price, "9.52");
    assert_eq!(prices[0].change.as_deref(), Some("0.05"));
    assert_eq!(prices[0].date, "2024-05-06");
    assert_eq!(prices[1].change, None);
    assert_eq!(prices[2].name, "豆粕");
    assert_eq!(prices[2].change.as_deref(), Some("-20"));
    assert!(matches!(zhujia_prices(None, "d".into()), Err(ScrapeError::Selector)));
    assert!(matches!(zhujia_prices(Some(vec![]), "d".into()), Err(ScrapeError::NoCards)));
}

#[test]
fn pig_price_page_is_read_through_its_cards() {
    let html = r#"<html><body><ul class="zhujia-hd">
        <li title="外三元"><span>外三元</span><b class="red">9.52</b><i><span class="red">0.05元</span>/公斤</i></li>
        <li title="玉米"><span>玉米</span><b>2310</b><i><span>报价平稳</span>/吨</i></li>
        </ul></body></html>"#;
    let prices = ZhuJiaScraper::new().parse_zhujia_cards(html).unwrap();
    assert_eq!(prices.len(), 2);
    assert_eq!(prices[0].price, "9.52");
    assert_eq!(prices[0].change.as_deref(), Some("0.05"));
    assert_eq!(prices[1].name, "玉米");
    assert!(matches!(
        ZhuJiaScraper::new().parse_zhujia_cards("<html></html>"),
        Err(ScrapeError::NoCards)
    ));
}

#[test]
fn ppi_price_comes_from_the_first_strategy_that_finds_one() {
    let config = &default_commodities()[3];
    let meta = r#"<html><head><meta name="description" content="钛白粉今日基准价为15600.00元/吨，较昨日持平"></head>
        <body><p class="wsdfont1">99</p></body></html>"#;
    let p = ppi_page_price(meta, config, "2024-05-06".into()).unwrap();
    assert_eq!(p.len(), 1);
    assert_eq!(p[0].price, "15600.00");
    assert_eq!(p[0].name, "钛白粉");
    assert_eq!(p[0].unit, "元/吨");
    assert_eq!(p[0].change_percent, None);

    let second = r#"<html><body><p class="wsdfont1"> 15,600.50 元 </p><p class="price-fb04"> -1.25% </p></body></html>"#;
    let p = ppi_page_price(second, config, "d".into()).unwrap();
    assert_eq!(p[0].price, "15600.50");
    assert_eq!(p[0].change_percent.as_deref(), Some("-1.25"));

    let third = r#"<html><body><div class="sP_middle">价格 1234 元</div></body></html>"#;
    let p = ppi_page_price(third, config, "d".into()).unwrap();
    assert_eq!(p[0].price, "1234");
    assert_eq!(p[0].change_percent, None);

    match ppi_page_price("<html></html>", config, "d".into()) {
        Err(ScrapeError::NoPrice { name, url }) => {
            assert_eq!(name, "钛白粉");
            assert_eq!(url, "https://m1.100ppi.com/Rawmex/427.html");
        }
        other => panic!("{other:?}"),
    }
    let today = PpiScraper::new().parse_ppi_page(meta, config).unwrap()[0].date.clone();
    let b = today.as_bytes();
    assert!(b.len() >= 10 && b[b.len() - 3] == b'-' && b[b.len() - 6] == b'-');
}

#[test]
fn ppi_strategies_on_given_page_texts() {
    let config = &default_commodities()[4];
    let s = |t: &str| Some(t.to_string());
    // A capture that is not a number gives way to the next strategy.
    let p = ppi_price_from(s("1.2.3"), s(" 980元 "), s("+0.5%"), s("700"), config, "2024-05-06".into()).unwrap();
    assert_eq!((p[0].price.as_str(), p[0].change_percent.as_deref()), ("980", Some("+0.5")));
    assert_eq!((p[0].name.as_str(), p[0].date.as_str()), ("硫磺", "2024-05-06"));
    let p = ppi_price_from(s("1020.5"), s("980"), None, None, config, "d".into()).unwrap();
    assert_eq!((p[0].price.as_str(), p[0].change_percent.as_deref()), ("1020.5", None));
    let p = ppi_price_from(None, s("无"), s("1%"), s("约 700 元"), config, "d".into()).unwrap();
    assert_eq!((p[0].price.as_str(), p[0].change_percent.as_deref()), ("700", None));
    let p = ppi_price_from(None, s("980"), s("n/a"), None, config, "d".into()).unwrap();
    assert_eq!(p[0].change_percent, None);
    assert!(matches!(
        ppi_price_from(None, None, s("1%"), s("--"), config, "d".into()),
        Err(ScrapeError::NoPrice { .. })
    ));
}

#[test]
fn dashboard_badges() {
    assert_eq!(trend_badge(Some((Up, 4))), ("up 上涨 4".to_string(), "badge bg-danger".to_string()));
    assert_eq!(trend_badge(Some((Down, 12))), ("down 下跌 12".to_string(), "badge bg-success".to_string()));
    assert_eq!(trend_badge(Some((Flat, 0))), ("flat".to_string(), "badge bg-secondary".to_string()));
    assert_eq!(trend_badge(None), ("nodata".to_string(), "badge bg-secondary".to_string()));
    assert_eq!(change_class(Some(Up)), "text-success");
    assert_eq!(change_class(Some(Down)), "text-danger");
    assert_eq!(change_class(Some(Flat)), "text-muted");
    assert_eq!(change_class(None), "text-muted");
}

#[test]
fn refresh_report_joins_messages() {
    assert_eq!(join_texts(&texts(&["a", "b", "c"]), ", "), "a, b, c");
    assert_eq!(join_texts(&texts(&["a"]), ", "), "a");
    assert_eq!(join_texts(&vec![], ", "), "");
    assert_eq!(
        refresh_report(&texts(&["生猪 collected OK", "硫磺 scrape failed: x"])),
        "<div id=\"refresh-status\" class=\"alert alert-info\">生猪 collected OK<br>硫磺 scrape failed: x</div>"
    );
}

#[test]
fn the_dashboard_shows_the_latest_collection() {
    assert_eq!(last_collected(&vec![]), "N/A");
    assert_eq!(last_collected(&texts(&["", ""])), "N/A");
    assert_eq!(
        last_collected(&texts(&["2024-05-02T11:00:03+08:00", "", "2024-05-03T11:00:01+08:00", "2024-05-01T09:00:00+08:00"])),
        "2024-05-03T11:00:01+08:00"
    );
}

#[test]
fn saving_a_batch_twice_keeps_the_series() {
    let stored = texts(&["2024-05-02", "2024-05-04"]);
    let fresh = texts(&["2024-05-04", "2024-05-03", "2024-05-05", "2024-05-05", "2024-05-01"]);
    let first = merge_plan(&stored, &fresh);
    let merged: Vec<String> = first
        .iter()
        .map(|slot| match *slot {
            PriceSlot::Stored(k) => stored[k].clone(),
            PriceSlot::Fresh(j) => fresh[j].clone(),
        })
        .collect();
    assert_eq!(merged, texts(&["2024-05-01", "2024-05-02", "2024-05-03", "2024-05-04", "2024-05-05", "2024-05-05"]));
    let second = merge_plan(&merged, &fresh);
    assert_eq!(second, (0..merged.len()).map(PriceSlot::Stored).collect::<Vec<_>>());

    let stored = texts(&["2024-05-01", "2024-05-02", "2024-05-02", "2024-05-03"]);
    let fresh = texts(&["2024-05-03", "2024-05-01", "2024-05-02"]);
    assert_eq!(
        merge_plan(&stored, &fresh),
        vec![PriceSlot::Stored(0), PriceSlot::Stored(1), PriceSlot::Stored(2), PriceSlot::Stored(3)]
    );
}

#[test]
fn a_collection_run_hands_each_commodity_its_prices() {
    let configs = default_commodities();
    assert_eq!(config_for_code(&configs, "corn"), Some(1));
    assert_eq!(config_for_code(&configs, "sulfur"), Some(4));
    assert_eq!(config_for_code(&configs, "gold"), None);

    let pig = configs_from(&configs, "zhujia");
    let names = texts(&["玉米", "生猪", "玉米", "大豆"]);
    assert_eq!(pig_price_batches(&pig, &names), vec![(0, vec![1]), (1, vec![0, 2])]);
    assert_eq!(pig_price_batches(&pig, &texts(&["大豆"])), vec![]);
}

#[test]
fn collection_messages() {
    assert_eq!(saved_message("玉米"), "玉米 collected OK");
    assert_eq!(save_failed_message("玉米", "disk full"), "Save 玉米 failed: disk full");
    assert_eq!(pig_scrape_failed_message("timeout"), "ZhuJia scrape failed: timeout");
    assert_eq!(scrape_failed_message("硫磺", "HTTP 404"), "硫磺 scrape failed: HTTP 404");
    assert_eq!(scrape_error_message(&ScrapeError::NoCards), "未能在猪价网找到任何商品价格数据");
    assert_eq!(
        scrape_error_message(&ScrapeError::NoPrice { name: "硫磺".into(), url: "u".into() }),
        "未能在 100ppi.com 找到 硫磺 的价格数据，请检查 CSS 选择器。URL: u"
    );
    assert_eq!(
        scrape_error_message(&ScrapeError::Selector),
        "CSS error: a selector of the card layout does not parse"
    );
}
