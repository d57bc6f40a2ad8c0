//! Reading commodity prices off two web pages: the pig-price site's
//! national price cards (live pigs, corn, soybean meal) and a 100ppi.com
//! commodity page. Finding elements in the HTML is left to the `scraper`
//! and `regex` crates; which texts count as prices, and which strategy
//! wins, is decided here. Prices are kept as the text that reads as a
//! floating-point number, for the caller to turn into one.
use vstd::prelude::*;
use crate::text::{all_digits, chars_of, is_digit, string_of, trim, trim_chars};
use crate::number::{parses_as_f64, reads_as_f64};
use crate::store::{commodity_table, CommodityConfig};

verus! {

#[verifier::external_type_specification]
#[verifier::external_body]
pub struct ExHttpClient(reqwest::Client);

/// The text of the first element that the CSS selector `css` matches in
/// the HTML document `html`, or none where nothing matches or the selector
/// does not parse.
pub uninterp spec fn css_first_text(html: Seq<char>, css: Seq<char>) -> Option<Seq<char>>;

/// The attribute `attr` of the first element that `css` matches in `html`,
/// or none where nothing matches, it has no such attribute, or the
/// selector does not parse.
pub uninterp spec fn css_first_attr(html: Seq<char>, css: Seq<char>, attr: Seq<char>) -> Option<Seq<char>>;

/// For each element that `card_css` matches in `html`, in document order:
/// its `title` attribute, the text of its first descendant matching
/// `price_css`, and the text of its first descendant matching
/// `change_css`; none where a selector does not parse.
pub uninterp spec fn css_cards(
    html: Seq<char>,
    card_css: Seq<char>,
    price_css: Seq<char>,
    change_css: Seq<char>,
) -> Option<Seq<(Option<Seq<char>>, Option<Seq<char>>, Option<Seq<char>>)>>;

/// The text of capture group `group` of the first match of the regular
/// expression `pattern` in `text`, or none where it does not match, the
/// group took no part, or the pattern does not compile.
pub uninterp spec fn regex_first_capture(pattern: Seq<char>, text: Seq<char>, group: nat) -> Option<Seq<char>>;

/// `scraper`: `Html::parse_document`, `Selector::parse`, `Html::select`
/// and `ElementRef::text` for the first match. The result is named
/// `css_first_text`, a function of the document and the selector, and not
/// described further.
#[verifier::external_body]
fn first_text(html: &str, css: &str) -> (r: Option<String>)
    ensures
        r matches Some(t) ==> css_first_text(html@, css@) == Some(t@),
        r is None ==> css_first_text(html@, css@) is None,
{
    let document = scraper::Html::parse_document(html);
    let selector = scraper::Selector::parse(css).ok()?;
    let element = document.select(&selector).next()?;
    Some(element.text().collect::<String>())
}

/// `scraper`: as `first_text`, then `Element::attr` of the first match.
/// The result is named `css_first_attr`.
#[verifier::external_body]
fn first_attr(html: &str, css: &str, attr: &str) -> (r: Option<String>)
    ensures
        r matches Some(t) ==> css_first_attr(html@, css@, attr@) == Some(t@),
        r is None ==> css_first_attr(html@, css@, attr@) is None,
{
    let document = scraper::Html::parse_document(html);
    let selector = scraper::Selector::parse(css).ok()?;
    let element = document.select(&selector).next()?;
    element.value().attr(attr).map(|a| a.to_string())
}

/// The texts that one price card holds.
pub struct CardFields {
    pub title: Option<String>,
    pub price: Option<String>,
    pub change: Option<String>,
}

/// The view of an optional string.
pub open spec fn opt_text(o: Option<String>) -> Option<Seq<char>> {
    match o {
        Some(s) => Some(s@),
        None => None,
    }
}

/// The view of a card.
pub open spec fn card_view(c: CardFields) -> (Option<Seq<char>>, Option<Seq<char>>, Option<Seq<char>>) {
    (opt_text(c.title), opt_text(c.price), opt_text(c.change))
}

/// `scraper`: `Html::parse_document`, `Selector::parse` of the three
/// selectors, `Html::select` of the cards and, in each card,
/// `Element::attr("title")` and `ElementRef::select` with
/// `ElementRef::text` of the first price and change element. The result is
/// named `css_cards`.
#[verifier::external_body]
fn select_cards(html: &str, card_css: &str, price_css: &str, change_css: &str) -> (r: Option<Vec<CardFields>>)
    ensures
        match css_cards(html@, card_css@, price_css@, change_css@) {
            Some(cards) => r matches Some(v) && v@.map_values(|c: CardFields| card_view(c)) == cards,
            None => r is None,
        },
{
    let document = scraper::Html::parse_document(html);
    let card_sel = scraper::Selector::parse(card_css).ok()?;
    let price_sel = scraper::Selector::parse(price_css).ok()?;
    let change_sel = scraper::Selector::parse(change_css).ok()?;
    Some(document.select(&card_sel).map(|card| CardFields {
        title: card.value().attr("title").map(|t| t.to_string()),
        price: card.select(&price_sel).next().map(|e| e.text().collect::<String>()),
        change: card.select(&change_sel).next().map(|e| e.text().collect::<String>()),
    }).collect())
}

/// `regex`: `Regex::new`, `Regex::captures` and `Captures::get`. The
/// result is named `regex_first_capture`.
#[verifier::external_body]
fn first_capture(pattern: &str, text: &str, group: usize) -> (r: Option<String>)
    ensures
        r matches Some(t) ==> regex_first_capture(pattern@, text@, group as nat) == Some(t@),
        r is None ==> regex_first_capture(pattern@, text@, group as nat) is None,
{
    let re = regex::Regex::new(pattern).ok()?;
    let caps = re.captures(text)?;
    caps.get(group).map(|m| m.as_str().to_string())
}

/// Two ASCII digits whose value lies in `lo..=hi`.
pub open spec fn two_digits_in(s: Seq<char>, lo: int, hi: int) -> bool {
    &&& s.len() == 2
    &&& is_digit(s[0])
    &&& is_digit(s[1])
    &&& lo <= (s[0] as int - '0' as int) * 10 + (s[1] as int - '0' as int) <= hi
}

/// A year as `%Y` writes it: at least four ASCII digits, behind a `+` or
/// `-` sign for years outside 0 to 9999.
pub open spec fn year_text(y: Seq<char>) -> bool {
    ||| (y.len() >= 4 && all_digits(y))
    ||| (y.len() >= 5 && (y[0] == '+' || y[0] == '-') && all_digits(y.drop_first()))
}

/// A date as `%Y-%m-%d` writes it: the year, then the month 01 to 12 and
/// the day 01 to 31, each of two digits, joined by `-`.
pub open spec fn ymd_date(s: Seq<char>) -> bool {
    &&& s.len() >= 10
    &&& year_text(s.take(s.len() - 6))
    &&& s[s.len() - 6] == '-'
    &&& two_digits_in(s.subrange(s.len() - 5, s.len() - 3), 1, 12)
    &&& s[s.len() - 3] == '-'
    &&& two_digits_in(s.subrange(s.len() - 2, s.len() as int), 1, 31)
}

/// `chrono::Local::now` formatted as `%Y-%m-%d`: today's date on the local
/// clock. Which date it is depends on the clock and is not stated; its
/// shape is the one chrono documents for `%Y`, `%m` and `%d`.
#[verifier::external_body]
fn local_date_today() -> (r: String)
    ensures
        ymd_date(r@),
{
    chrono::Local::now().format("%Y-%m-%d").to_string()
}

/// `reqwest::Client::builder` with a `User-Agent`, then `build`. The
/// header value is refused, and `build` then fails, on a control character
/// other than tab, which the precondition rules out; beyond that `build`
/// fails only where the TLS backend or the system resolver cannot be set
/// up, and there this panics. Beside the client comes
/// a record of the user agent it was built with; nothing is stated of the
/// client itself.
#[verifier::external_body]
fn client_with_agent(user_agent: &str) -> (r: (reqwest::Client, Ghost<Seq<char>>))
    requires
        header_text(user_agent@),
    ensures
        r.1@ == user_agent@,
{
    let client = reqwest::Client::builder().user_agent(user_agent).build().expect("Failed to create HTTP client");
    (client, Ghost(user_agent@))
}

/// `reqwest::Client::builder` with default headers `User-Agent`,
/// `Accept-Language` and `Referer` and a request timeout, then `build`.
/// `HeaderValue` parsing panics on control characters other than tab,
/// which the precondition rules out; `build` fails as in
/// `client_with_agent`. Beside the client comes a record of the user agent,
/// language, referer and timeout it was built with; nothing is stated of the
/// client itself.
#[verifier::external_body]
fn client_with_headers(
    user_agent: &str,
    language: &str,
    referer: &str,
    timeout_secs: u64,
) -> (r: (reqwest::Client, Ghost<(Seq<char>, Seq<char>, Seq<char>, u64)>))
    requires
        header_text(user_agent@),
        header_text(language@),
        header_text(referer@),
    ensures
        r.1@ == (user_agent@, language@, referer@, timeout_secs),
{
    let mut headers = reqwest::header::HeaderMap::new();
    headers.insert(reqwest::header::USER_AGENT, user_agent.parse().unwrap());
    headers.insert(reqwest::header::ACCEPT_LANGUAGE, language.parse().unwrap());
    headers.insert(reqwest::header::REFERER, referer.parse().unwrap());
    let client = reqwest::Client::builder()
        .default_headers(headers)
        .timeout(std::time::Duration::from_secs(timeout_secs))
        .build()
        .expect("Failed to create HTTP client");
    (client, Ghost((user_agent@, language@, referer@, timeout_secs)))
}

/// No character of `s` is a control character other than tab.
pub open spec fn header_text(s: Seq<char>) -> bool {
    forall|i: int| 0 <= i < s.len() ==> (s[i] == '\t' || (' ' <= #[trigger] s[i] && s[i] != '\u{7f}'))
}

/// A price read off a page, its numbers as text.
#[derive(Clone, Debug)]
pub struct ScrapedPrice {
    pub date: String,
    pub name: String,
    pub price: String,
    pub unit: String,
    pub change: Option<String>,
    pub change_percent: Option<String>,
}

/// What a scraped price holds.
pub struct PriceView {
    pub date: Seq<char>,
    pub name: Seq<char>,
    pub price: Seq<char>,
    pub unit: Seq<char>,
    pub change: Option<Seq<char>>,
    pub change_percent: Option<Seq<char>>,
}

impl View for ScrapedPrice {
    type V = PriceView;

    open spec fn view(&self) -> PriceView {
        PriceView {
            date: self.date@,
            name: self.name@,
            price: self.price@,
            unit: self.unit@,
            change: opt_text(self.change),
            change_percent: opt_text(self.change_percent),
        }
    }
}

/// Why no price was read off a page.
#[derive(Clone, Debug)]
pub enum ScrapeError {
    /// A selector of the card layout does not parse.
    Selector,
    /// The pig-price page holds no card of a known commodity with a price.
    NoCards,
    /// No strategy found a price on the 100ppi page of this commodity.
    NoPrice { name: String, url: String },
}

/// `c` may stand in a number: an ASCII digit, a `.`, or, where `minus`, a `-`.
pub open spec fn number_char(c: char, minus: bool) -> bool {
    is_digit(c) || c == '.' || (minus && c == '-')
}

/// The characters of `s` that may stand in a number.
pub open spec fn number_chars(s: Seq<char>, minus: bool) -> Seq<char> {
    s.filter(|c: char| number_char(c, minus))
}

fn keep_number_chars(v: &[char], minus: bool) -> (r: Vec<char>)
    ensures
        r@ == number_chars(v@, minus),
{
    let ghost pred = |c: char| number_char(c, minus);
    let mut r: Vec<char> = Vec::new();
    let mut i: usize = 0;
    while i < v.len()
        invariant
            i <= v@.len(),
            pred == (|c: char| number_char(c, minus)),
            r@ == v@.take(i as int).filter(pred),
        decreases v.len() - i,
    {
        proof {
            v@.take(i as int).lemma_filter_push(v@[i as int], pred);
            assert(v@.take(i + 1) =~= v@.take(i as int).push(v@[i as int]));
        }
        let c = v[i];
        if ('0' <= c && c <= '9') || c == '.' || (minus && c == '-') {
            r.push(c);
        }
        i += 1;
    }
    assert(v@.take(v@.len() as int) =~= v@);
    r
}

/// `s` without its `%` signs, as `str::replace('%', "")` leaves it.
pub open spec fn without_percent(s: Seq<char>) -> Seq<char> {
    s.filter(|c: char| c != '%')
}

fn drop_percent(v: &[char]) -> (r: Vec<char>)
    ensures
        r@ == without_percent(v@),
{
    let ghost pred = |c: char| c != '%';
    let mut r: Vec<char> = Vec::new();
    let mut i: usize = 0;
    while i < v.len()
        invariant
            i <= v@.len(),
            pred == (|c: char| c != '%'),
            r@ == v@.take(i as int).filter(pred),
        decreases v.len() - i,
    {
        proof {
            v@.take(i as int).lemma_filter_push(v@[i as int], pred);
            assert(v@.take(i + 1) =~= v@.take(i as int).push(v@[i as int]));
        }
        if v[i] != '%' {
            r.push(v[i]);
        }
        i += 1;
    }
    assert(v@.take(v@.len() as int) =~= v@);
    r
}

/// The commodity and unit of a card title: the pig-price site calls live
/// pigs by their breed, `外三元`.
pub open spec fn zhujia_commodity(title: Seq<char>) -> Option<(Seq<char>, Seq<char>)> {
    if title == "外三元"@ {
        Some(("生猪"@, "元/公斤"@))
    } else if title == "玉米"@ {
        Some(("玉米"@, "元/吨"@))
    } else if title == "豆粕"@ {
        Some(("豆粕"@, "元/吨"@))
    } else {
        None
    }
}

/// The price of one card, where it has a known title and a price text that
/// reads as a number once trimmed; its change is the digits, dots and minus
/// signs of its change text, where those read as a number.
pub open spec fn zhujia_entry(
    card: (Option<Seq<char>>, Option<Seq<char>>, Option<Seq<char>>),
    today: Seq<char>,
) -> Option<PriceView> {
    match card.0 {
        None => None,
        Some(title) => match zhujia_commodity(title) {
            None => None,
            Some(nu) => match card.1 {
                None => None,
                Some(price_text) => {
                    let price = trim(price_text);
                    if !parses_as_f64(price) {
                        None
                    } else {
                        Some(PriceView {
                            date: today,
                            name: nu.0,
                            price,
                            unit: nu.1,
                            change: match card.2 {
                                Some(t) => if parses_as_f64(number_chars(t, true)) {
                                    Some(number_chars(t, true))
                                } else {
                                    None
                                },
                                None => None,
                            },
                            change_percent: None,
                        })
                    }
                },
            },
        },
    }
}

/// The prices of the cards that give one, in order.
pub open spec fn zhujia_entries(
    cards: Seq<(Option<Seq<char>>, Option<Seq<char>>, Option<Seq<char>>)>,
    today: Seq<char>,
) -> Seq<PriceView>
    decreases cards.len(),
{
    if cards.len() == 0 {
        Seq::empty()
    } else {
        let rest = zhujia_entries(cards.drop_last(), today);
        match zhujia_entry(cards.last(), today) {
            Some(p) => rest.push(p),
            None => rest,
        }
    }
}

/// `name` in `unit` is a commodity that is configured to be read off the
/// pig-price site.
pub open spec fn configured_pig_commodity(name: Seq<char>, unit: Seq<char>) -> bool {
    exists|k: int|
        0 <= k < commodity_table().len() && (#[trigger] commodity_table()[k]).2 == "zhujia"@
            && commodity_table()[k].0 == name && commodity_table()[k].4 == unit
}

proof fn lemma_card_title_commodity(title: Seq<char>)
    ensures
        zhujia_commodity(title) matches Some((name, unit)) ==> configured_pig_commodity(name, unit),
{
    let t = commodity_table();
    if let Some((name, unit)) = zhujia_commodity(title) {
        if title == "外三元"@ {
            assert(t[0].2 == "zhujia"@ && t[0].0 == name && t[0].4 == unit);
        } else if title == "玉米"@ {
            assert(t[1].2 == "zhujia"@ && t[1].0 == name && t[1].4 == unit);
        } else {
            assert(t[2].2 == "zhujia"@ && t[2].0 == name && t[2].4 == unit);
        }
    }
}

/// Every price read off the pig-price cards is of a commodity configured
/// for that site, under that commodity's name and in its unit; and every
/// commodity configured for that site has a card title that gives it.
pub proof fn law_cards_match_configured_commodities(
    cards: Seq<(Option<Seq<char>>, Option<Seq<char>>, Option<Seq<char>>)>,
    today: Seq<char>,
)
    ensures
        forall|i: int|
            0 <= i < zhujia_entries(cards, today).len() ==> configured_pig_commodity(
                (#[trigger] zhujia_entries(cards, today)[i]).name,
                zhujia_entries(cards, today)[i].unit,
            ),
        forall|k: int|
            0 <= k < commodity_table().len() && (#[trigger] commodity_table()[k]).2 == "zhujia"@ ==> exists|title: Seq<char>|
                zhujia_commodity(title) == Some((commodity_table()[k].0, commodity_table()[k].4)),
    decreases cards.len(),
{
    let es = zhujia_entries(cards, today);
    if cards.len() > 0 {
        law_cards_match_configured_commodities(cards.drop_last(), today);
        let rest = zhujia_entries(cards.drop_last(), today);
        if let Some(title) = cards.last().0 {
            lemma_card_title_commodity(title);
        }
        assert forall|i: int| 0 <= i < es.len() implies configured_pig_commodity(
            (#[trigger] es[i]).name,
            es[i].unit,
        ) by {
            if i < rest.len() {
                assert(es[i] == rest[i]);
            }
        }
    }
    let t = commodity_table();
    reveal_strlit("外三元");
    reveal_strlit("玉米");
    reveal_strlit("豆粕");
    reveal_strlit("zhujia");
    reveal_strlit("ppi");
    assert(zhujia_commodity("外三元"@) == Some((t[0].0, t[0].4)));
    assert(zhujia_commodity("玉米"@) == Some((t[1].0, t[1].4)));
    assert(zhujia_commodity("豆粕"@) == Some((t[2].0, t[2].4)));
    assert(t[3].2 == "ppi"@ && t[4].2 == "ppi"@);
    assert("ppi"@.len() != "zhujia"@.len());
    assert(t[3].2 != "zhujia"@);
    assert(t[4].2 != "zhujia"@);
    assert forall|k: int| 0 <= k < t.len() && (#[trigger] t[k]).2 == "zhujia"@ implies exists|title: Seq<char>|
        zhujia_commodity(title) == Some((t[k].0, t[k].4)) by {
        if k == 0 {
            assert(zhujia_commodity("外三元"@) == Some((t[k].0, t[k].4)));
        } else if k == 1 {
            assert(zhujia_commodity("玉米"@) == Some((t[k].0, t[k].4)));
        } else if k == 2 {
            assert(zhujia_commodity("豆粕"@) == Some((t[k].0, t[k].4)));
        }
    }
}

/// The views of optional cards.
pub open spec fn cards_view(cards: Option<Vec<CardFields>>) -> Option<Seq<(Option<Seq<char>>, Option<Seq<char>>, Option<Seq<char>>)>> {
    match cards {
        Some(cs) => Some(cs@.map_values(|c: CardFields| card_view(c))),
        None => None,
    }
}

/// `r` is what reading `cards` dated `today` gives: `Selector` where there
/// are no cards for want of a parsing selector, `NoCards` where no card
/// gives a price, else the prices of the cards that give one.
pub open spec fn zhujia_outcome(
    cards: Option<Seq<(Option<Seq<char>>, Option<Seq<char>>, Option<Seq<char>>)>>,
    today: Seq<char>,
    r: Result<Vec<ScrapedPrice>, ScrapeError>,
) -> bool {
    match cards {
        None => r matches Err(ScrapeError::Selector),
        Some(cs) => {
            let expected = zhujia_entries(cs, today);
            if expected.len() == 0 {
                r matches Err(ScrapeError::NoCards)
            } else {
                r matches Ok(v) && v@.map_values(|p: ScrapedPrice| p@) == expected
            }
        },
    }
}

fn text_is(s: &String, lit: &str) -> (b: bool)
    ensures
        b == (s@ == lit@),
{
    *s == lit.to_owned()
}

fn zhujia_card(card: &CardFields, today: &String) -> (r: Option<ScrapedPrice>)
    ensures
        match zhujia_entry(card_view(*card), today@) {
            Some(p) => r matches Some(x) && x@ == p,
            None => r is None,
        },
{
    let title = match &card.title {
        Some(t) => t,
        None => return None,
    };
    let (name, unit) = if text_is(title, "外三元") {
        ("生猪", "元/公斤")
    } else if text_is(title, "玉米") {
        ("玉米", "元/吨")
    } else if text_is(title, "豆粕") {
        ("豆粕", "元/吨")
    } else {
        return None;
    };
    let price_text = match &card.price {
        Some(t) => t,
        None => return None,
    };
    let pv = chars_of(price_text.as_str());
    let price = string_of(trim_chars(pv.as_slice()).as_slice());
    if !reads_as_f64(price.as_str()) {
        return None;
    }
    let change = match &card.change {
        Some(t) => {
            let cv = chars_of(t.as_str());
            let kept = string_of(keep_number_chars(cv.as_slice(), true).as_slice());
            if reads_as_f64(kept.as_str()) {
                Some(kept)
            } else {
                None
            }
        },
        None => None,
    };
    Some(ScrapedPrice {
        date: today.clone(),
        name: name.to_owned(),
        price,
        unit: unit.to_owned(),
        change,
        change_percent: None,
    })
}

/// The prices on the pig-price cards, dated `today`: `Selector` where the
/// card layout's selectors do not parse, `NoCards` where no card gives a
/// price.
pub fn zhujia_prices(cards: Option<Vec<CardFields>>, today: String) -> (r: Result<Vec<ScrapedPrice>, ScrapeError>)
    ensures
        zhujia_outcome(cards_view(cards), today@, r),
{
    let cards = match cards {
        Some(cs) => cs,
        None => return Err(ScrapeError::Selector),
    };
    let ghost views = cards@.map_values(|c: CardFields| card_view(c));
    let mut out: Vec<ScrapedPrice> = Vec::new();
    let mut i: usize = 0;
    while i < cards.len()
        invariant
            i <= cards@.len(),
            views == cards@.map_values(|c: CardFields| card_view(c)),
            out@.map_values(|p: ScrapedPrice| p@) == zhujia_entries(views.take(i as int), today@),
        decreases cards.len() - i,
    {
        assert(views.take(i + 1).drop_last() =~= views.take(i as int));
        assert(views.take(i + 1).last() == card_view(cards@[i as int]));
        let ghost before = out@;
        match zhujia_card(&cards[i], &today) {
            Some(p) => {
                out.push(p);
                assert(out@.map_values(|p: ScrapedPrice| p@) =~= before.map_values(|p: ScrapedPrice| p@).push(p@));
            },
            None => {},
        }
        i += 1;
    }
    assert(views.take(cards@.len() as int) =~= views);
    if out.len() == 0 {
        return Err(ScrapeError::NoCards);
    }
    Ok(out)
}

/// Reads the pig-price site's national price cards.
pub struct ZhuJiaScraper {
    client: reqwest::Client,
    agent: Ghost<Seq<char>>,
}

/// The user agent of the pig-price scraper: a desktop browser.
pub open spec fn desktop_agent() -> Seq<char> {
    "Mozilla/5.0 (Windows NT 10.0; Win64; x64) AppleWebKit/537.36"@
}

impl ZhuJiaScraper {
    /// The user agent that the scraper's client was built with.
    pub closed spec fn user_agent(&self) -> Seq<char> {
        self.agent@
    }

    /// A scraper with an HTTP client that presents itself as a desktop browser.
    pub fn new() -> (s: Self)
        ensures
            s.user_agent() == desktop_agent(),
    {
        proof {
            reveal_strlit("Mozilla/5.0 (Windows NT 10.0; Win64; x64) AppleWebKit/537.36");
        }
        let (client, agent) = client_with_agent("Mozilla/5.0 (Windows NT 10.0; Win64; x64) AppleWebKit/537.36");
        ZhuJiaScraper { client, agent }
    }

    /// The HTTP client that this scraper holds.
    pub closed spec fn http_client(&self) -> reqwest::Client {
        self.client
    }

    /// The HTTP client that fetches the page: the one this scraper holds.
    pub fn client(&self) -> (c: &reqwest::Client)
        ensures
            *c == self.http_client(),
    {
        &self.client
    }

    /// The prices on the cards of `ul.zhujia-hd li` (title attribute, `b`
    /// price, `i > span` change), dated today on the local clock.
    pub fn parse_zhujia_cards(&self, html: &str) -> (r: Result<Vec<ScrapedPrice>, ScrapeError>)
        ensures
            exists|today: Seq<char>| ymd_date(today) && zhujia_outcome(
                css_cards(html@, "ul.zhujia-hd li"@, "b"@, "i > span"@),
                today,
                r,
            ),
    {
        let cards = select_cards(html, "ul.zhujia-hd li", "b", "i > span");
        assert(cards_view(cards) == css_cards(html@, "ul.zhujia-hd li"@, "b"@, "i > span"@));
        let today = local_date_today();
        let ghost date = today@;
        let r = zhujia_prices(cards, today);
        assert(ymd_date(date) && zhujia_outcome(css_cards(html@, "ul.zhujia-hd li"@, "b"@, "i > span"@), date, r));
        r
    }
}


/// Where the 100ppi page's description states the reference price.
pub open spec fn meta_css() -> Seq<char> {
    "meta[name=\"description\"]"@
}

/// How the description states the reference price, in yuan per ton.
pub open spec fn reference_price_pattern() -> Seq<char> {
    "基准价为([\\d.]+)元/吨"@
}

/// What the description of a 100ppi page gives the reference price
/// pattern: its first capture, or none where there is no description, it
/// has no `content`, or the pattern does not match.
pub open spec fn meta_capture(html: Seq<char>) -> Option<Seq<char>> {
    match css_first_attr(html, meta_css(), "content"@) {
        None => None,
        Some(content) => regex_first_capture(reference_price_pattern(), content, 1),
    }
}

/// Strategy 1: the captured reference price, where it reads as a number.
pub open spec fn capture_price(capture: Option<Seq<char>>) -> Option<Seq<char>> {
    match capture {
        Some(p) => if parses_as_f64(p) {
            Some(p)
        } else {
            None
        },
        None => None,
    }
}

/// Strategies 2 and 3: the digits and dots of an element's trimmed text,
/// where they read as a number.
pub open spec fn text_price_of(text: Option<Seq<char>>) -> Option<Seq<char>> {
    match text {
        Some(t) => if parses_as_f64(number_chars(trim(t), false)) {
            Some(number_chars(trim(t), false))
        } else {
            None
        },
        None => None,
    }
}

/// The change in percent that goes with strategy 2: the trimmed text
/// without its `%` signs, where it reads as a number.
pub open spec fn change_percent_of(text: Option<Seq<char>>) -> Option<Seq<char>> {
    match text {
        Some(t) => if parses_as_f64(without_percent(trim(t))) {
            Some(without_percent(trim(t)))
        } else {
            None
        },
        None => None,
    }
}

/// The price that the strategies find, in order: the reference price
/// captured from the description (`meta`), then the text of `p.wsdfont1`
/// (`wsdfont`) with the change in percent of `p.price-fb04` (`fb04`), then
/// the text of `div.sP_middle` (`middle`).
pub open spec fn price_from(
    meta: Option<Seq<char>>,
    wsdfont: Option<Seq<char>>,
    fb04: Option<Seq<char>>,
    middle: Option<Seq<char>>,
    name: Seq<char>,
    unit: Seq<char>,
    today: Seq<char>,
) -> Option<PriceView> {
    match capture_price(meta) {
        Some(p) => Some(PriceView { date: today, name, price: p, unit, change: None, change_percent: None }),
        None => match text_price_of(wsdfont) {
            Some(p) => Some(
                PriceView {
                    date: today,
                    name,
                    price: p,
                    unit,
                    change: None,
                    change_percent: change_percent_of(fb04),
                },
            ),
            None => match text_price_of(middle) {
                Some(p) => Some(PriceView { date: today, name, price: p, unit, change: None, change_percent: None }),
                None => None,
            },
        },
    }
}

/// `r` is what the strategies give: the one price they find, or `NoPrice`
/// with the commodity's name and page.
pub open spec fn ppi_outcome_from(
    meta: Option<Seq<char>>,
    wsdfont: Option<Seq<char>>,
    fb04: Option<Seq<char>>,
    middle: Option<Seq<char>>,
    config: CommodityConfig,
    today: Seq<char>,
    r: Result<Vec<ScrapedPrice>, ScrapeError>,
) -> bool {
    match price_from(meta, wsdfont, fb04, middle, config.name@, config.unit@, today) {
        Some(p) => r matches Ok(v) && v@.len() == 1 && v@[0]@ == p,
        None => r matches Err(ScrapeError::NoPrice { name, url }) && name@ == config.name@ && url@ == config.url@,
    }
}

/// `r` is what reading a 100ppi page gives.
pub open spec fn ppi_outcome(html: Seq<char>, config: CommodityConfig, today: Seq<char>, r: Result<Vec<ScrapedPrice>, ScrapeError>) -> bool {
    ppi_outcome_from(
        meta_capture(html),
        css_first_text(html, "p.wsdfont1"@),
        css_first_text(html, "p.price-fb04"@),
        css_first_text(html, "div.sP_middle"@),
        config,
        today,
        r,
    )
}

fn price_of_capture(capture: Option<String>) -> (r: Option<String>)
    ensures
        opt_text(r) == capture_price(opt_text(capture)),
{
    match capture {
        Some(p) => {
            if reads_as_f64(p.as_str()) {
                Some(p)
            } else {
                None
            }
        },
        None => None,
    }
}

fn price_of_text(text: &Option<String>) -> (r: Option<String>)
    ensures
        opt_text(r) == text_price_of(opt_text(*text)),
{
    match text {
        Some(t) => {
            let v = chars_of(t.as_str());
            let cleaned = string_of(keep_number_chars(trim_chars(v.as_slice()).as_slice(), false).as_slice());
            if reads_as_f64(cleaned.as_str()) {
                Some(cleaned)
            } else {
                None
            }
        },
        None => None,
    }
}

fn change_of_text(text: &Option<String>) -> (r: Option<String>)
    ensures
        opt_text(r) == change_percent_of(opt_text(*text)),
{
    match text {
        Some(t) => {
            let v = chars_of(t.as_str());
            let cleaned = string_of(drop_percent(trim_chars(v.as_slice()).as_slice()).as_slice());
            if reads_as_f64(cleaned.as_str()) {
                Some(cleaned)
            } else {
                None
            }
        },
        None => None,
    }
}

fn priced(today: &String, config: &CommodityConfig, price: String, change_percent: Option<String>) -> (v: Vec<ScrapedPrice>)
    ensures
        v@.len() == 1,
        v@[0]@ == (PriceView {
            date: today@,
            name: config.name@,
            price: price@,
            unit: config.unit@,
            change: None,
            change_percent: opt_text(change_percent),
        }),
{
    let mut v: Vec<ScrapedPrice> = Vec::new();
    v.push(ScrapedPrice {
        date: today.clone(),
        name: config.name.clone(),
        price,
        unit: config.unit.clone(),
        change: None,
        change_percent,
    });
    v
}

/// The price of `config`'s commodity, dated `today`, from what a 100ppi
/// page gives each strategy: the captured reference price of its
/// description (`meta_capture`) and the texts of `p.wsdfont1`,
/// `p.price-fb04` and `div.sP_middle`.
pub fn ppi_price_from(
    meta_capture: Option<String>,
    wsdfont_text: Option<String>,
    fb04_text: Option<String>,
    middle_text: Option<String>,
    config: &CommodityConfig,
    today: String,
) -> (r: Result<Vec<ScrapedPrice>, ScrapeError>)
    ensures
        ppi_outcome_from(
            opt_text(meta_capture),
            opt_text(wsdfont_text),
            opt_text(fb04_text),
            opt_text(middle_text),
            *config,
            today@,
            r,
        ),
{
    if let Some(p) = price_of_capture(meta_capture) {
        return Ok(priced(&today, config, p, None));
    }
    if let Some(p) = price_of_text(&wsdfont_text) {
        let chg = change_of_text(&fb04_text);
        return Ok(priced(&today, config, p, chg));
    }
    if let Some(p) = price_of_text(&middle_text) {
        return Ok(priced(&today, config, p, None));
    }
    Err(ScrapeError::NoPrice { name: config.name.clone(), url: config.url.clone() })
}

/// The price on a 100ppi page of `config`'s commodity, dated `today`.
pub fn ppi_page_price(html: &str, config: &CommodityConfig, today: String) -> (r: Result<Vec<ScrapedPrice>, ScrapeError>)
    ensures
        ppi_outcome(html@, *config, today@, r),
{
    let capture = match first_attr(html, "meta[name=\"description\"]", "content") {
        Some(content) => first_capture("基准价为([\\d.]+)元/吨", content.as_str(), 1),
        None => None,
    };
    let wsdfont = first_text(html, "p.wsdfont1");
    let fb04 = first_text(html, "p.price-fb04");
    let middle = first_text(html, "div.sP_middle");
    ppi_price_from(capture, wsdfont, fb04, middle, config, today)
}

/// Reads the price on a 100ppi.com commodity page.
pub struct PpiScraper {
    client: reqwest::Client,
    settings: Ghost<(Seq<char>, Seq<char>, Seq<char>, u64)>,
}

/// The user agent, language, referer and timeout in seconds of the 100ppi
/// scraper: a mobile browser reading Chinese that comes from the site's own
/// pages and gives up on a request after 15 seconds.
pub open spec fn ppi_settings() -> (Seq<char>, Seq<char>, Seq<char>, u64) {
    (
        "Mozilla/5.0 (Linux; Android 14; Pixel 8) AppleWebKit/537.36 (KHTML, like Gecko) Chrome/126.0.0.0 Mobile Safari/537.36"@,
        "zh-CN,zh;q=0.9,en;q=0.8"@,
        "https://m1.100ppi.com/"@,
        15,
    )
}

impl PpiScraper {
    /// The user agent, language, referer and timeout in seconds that the
    /// scraper's client was built with.
    pub closed spec fn settings(&self) -> (Seq<char>, Seq<char>, Seq<char>, u64) {
        self.settings@
    }

    /// A scraper with an HTTP client that presents itself as a mobile
    /// browser reading Chinese, comes from the site's own pages, and gives
    /// up on a request after 15 seconds.
    pub fn new() -> (s: Self)
        ensures
            s.settings() == ppi_settings(),
    {
        proof {
            reveal_strlit("Mozilla/5.0 (Linux; Android 14; Pixel 8) AppleWebKit/537.36 (KHTML, like Gecko) Chrome/126.0.0.0 Mobile Safari/537.36");
            reveal_strlit("zh-CN,zh;q=0.9,en;q=0.8");
            reveal_strlit("https://m1.100ppi.com/");
        }
        let (client, settings) = client_with_headers(
            "Mozilla/5.0 (Linux; Android 14; Pixel 8) AppleWebKit/537.36 (KHTML, like Gecko) Chrome/126.0.0.0 Mobile Safari/537.36",
            "zh-CN,zh;q=0.9,en;q=0.8",
            "https://m1.100ppi.com/",
            15,
        );
        PpiScraper { client, settings }
    }

    /// The HTTP client that this scraper holds.
    pub closed spec fn http_client(&self) -> reqwest::Client {
        self.client
    }

    /// The HTTP client that fetches the page: the one this scraper holds.
    pub fn client(&self) -> (c: &reqwest::Client)
        ensures
            *c == self.http_client(),
    {
        &self.client
    }

    /// The price on the page, dated today on the local clock.
    pub fn parse_ppi_page(&self, html: &str, config: &CommodityConfig) -> (r: Result<Vec<ScrapedPrice>, ScrapeError>)
        ensures
            exists|today: Seq<char>| ymd_date(today) && ppi_outcome(html@, *config, today, r),
    {
        let today = local_date_today();
        let ghost date = today@;
        let r = ppi_page_price(html, config, today);
        assert(ymd_date(date) && ppi_outcome(html@, *config, date, r));
        r
    }
}

} // verus!
