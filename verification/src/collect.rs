//! The decisions of a price collection run: which commodity a page request
//! names, which of the pig-price page's prices each commodity is handed, and
//! what the run reports. Fetching and saving are left to the caller.
use vstd::prelude::*;
use crate::scrapers::ScrapeError;
use crate::store::CommodityConfig;
use crate::text::{push_text, string_of};

verus! {

/// The index of the first configuration with code `code`, if any.
pub open spec fn code_index(configs: Seq<CommodityConfig>, code: Seq<char>) -> Option<int>
    decreases configs.len(),
{
    if configs.len() == 0 {
        None
    } else if configs[0].code@ == code {
        Some(0)
    } else {
        match code_index(configs.drop_first(), code) {
            Some(i) => Some(i + 1),
            None => None,
        }
    }
}

proof fn lemma_code_index(configs: Seq<CommodityConfig>, code: Seq<char>)
    ensures
        code_index(configs, code) matches Some(i) ==> 0 <= i < configs.len() && configs[i].code@ == code,
    decreases configs.len(),
{
    if configs.len() > 0 && configs[0].code@ != code {
        lemma_code_index(configs.drop_first(), code);
    }
}

/// The configuration of the commodity with code `code`: the first one that
/// has it, or none.
pub fn config_for_code(configs: &Vec<CommodityConfig>, code: &str) -> (r: Option<usize>)
    ensures
        match code_index(configs@, code@) {
            Some(i) => r == Some(i as usize),
            None => r is None,
        },
        r matches Some(k) ==> k < configs@.len() && configs@[k as int].code@ == code@,
{
    proof {
        lemma_code_index(configs@, code@);
    }
    let wanted = code.to_owned();
    let mut i: usize = 0;
    assert(configs@.skip(0) =~= configs@);
    while i < configs.len()
        invariant
            i <= configs@.len(),
            wanted@ == code@,
            code_index(configs@, code@) == match code_index(configs@.skip(i as int), code@) {
                Some(j) => Some(j + i),
                None => None::<int>,
            },
        decreases configs.len() - i,
    {
        let ghost rest = configs@.skip(i as int);
        assert(rest[0] == configs@[i as int]);
        assert(rest.drop_first() =~= configs@.skip(i + 1));
        if configs[i].code == wanted {
            return Some(i);
        }
        i += 1;
    }
    assert(configs@.skip(i as int) =~= Seq::<CommodityConfig>::empty());
    None
}

/// The positions of the prices named `name`, in order.
pub open spec fn positions_of(names: Seq<Seq<char>>, name: Seq<char>) -> Seq<usize>
    decreases names.len(),
{
    if names.len() == 0 {
        Seq::empty()
    } else {
        let rest = positions_of(names.drop_last(), name);
        if names.last() == name {
            rest.push((names.len() - 1) as usize)
        } else {
            rest
        }
    }
}

/// What each pig-price commodity is handed of the prices read off the
/// page: in the order of the configurations, the index of each one whose
/// name some price has, with the positions of those prices. A commodity
/// without a price is left out, and nothing is saved for it.
pub open spec fn pig_batches(configs: Seq<CommodityConfig>, names: Seq<Seq<char>>) -> Seq<(usize, Seq<usize>)>
    decreases configs.len(),
{
    if configs.len() == 0 {
        Seq::empty()
    } else {
        let rest = pig_batches(configs.drop_last(), names);
        let ps = positions_of(names, configs.last().name@);
        if ps.len() > 0 {
            rest.push(((configs.len() - 1) as usize, ps))
        } else {
            rest
        }
    }
}

/// The views of the batches.
pub open spec fn batches_view(b: Seq<(usize, Vec<usize>)>) -> Seq<(usize, Seq<usize>)> {
    b.map_values(|x: (usize, Vec<usize>)| (x.0, x.1@))
}

/// The positions of the prices named `name`, in order.
pub fn positions_named(names: &Vec<String>, name: &String) -> (r: Vec<usize>)
    ensures
        r@ == positions_of(names@.map_values(|s: String| s@), name@),
{
    let ghost views = names@.map_values(|s: String| s@);
    let mut r: Vec<usize> = Vec::new();
    let mut i: usize = 0;
    assert(views.take(0) =~= Seq::<Seq<char>>::empty());
    while i < names.len()
        invariant
            i <= names@.len(),
            views == names@.map_values(|s: String| s@),
            r@ == positions_of(views.take(i as int), name@),
        decreases names.len() - i,
    {
        assert(views.take(i + 1).drop_last() =~= views.take(i as int));
        assert(views.take(i + 1).last() == names@[i as int]@);
        if names[i] == *name {
            r.push(i);
        }
        i += 1;
    }
    assert(views.take(names@.len() as int) =~= views);
    r
}

/// The batches of the pig-price page's prices, named `names`, for the
/// pig-price commodities `configs`.
pub fn pig_price_batches(configs: &Vec<CommodityConfig>, names: &Vec<String>) -> (r: Vec<(usize, Vec<usize>)>)
    ensures
        batches_view(r@) == pig_batches(configs@, names@.map_values(|s: String| s@)),
{
    let ghost views = names@.map_values(|s: String| s@);
    let mut r: Vec<(usize, Vec<usize>)> = Vec::new();
    let mut k: usize = 0;
    assert(configs@.take(0) =~= Seq::<CommodityConfig>::empty());
    assert(batches_view(r@) =~= Seq::<(usize, Seq<usize>)>::empty());
    while k < configs.len()
        invariant
            k <= configs@.len(),
            views == names@.map_values(|s: String| s@),
            batches_view(r@) == pig_batches(configs@.take(k as int), views),
        decreases configs.len() - k,
    {
        assert(configs@.take(k + 1).drop_last() =~= configs@.take(k as int));
        assert(configs@.take(k + 1).last() == configs@[k as int]);
        let ps = positions_named(names, &configs[k].name);
        if ps.len() > 0 {
            let ghost before = r@;
            r.push((k, ps));
            assert(batches_view(r@) =~= batches_view(before).push((k, ps@)));
        }
        k += 1;
    }
    assert(configs@.take(configs@.len() as int) =~= configs@);
    r
}

/// `"<name> collected OK"`.
pub fn saved_message(name: &str) -> (m: String)
    ensures
        m@ == name@ + " collected OK"@,
{
    let mut v: Vec<char> = Vec::new();
    push_text(&mut v, name);
    push_text(&mut v, " collected OK");
    string_of(v.as_slice())
}

/// `"Save <name> failed: <error>"`.
pub fn save_failed_message(name: &str, error: &str) -> (m: String)
    ensures
        m@ == "Save "@ + name@ + " failed: "@ + error@,
{
    let mut v: Vec<char> = Vec::new();
    push_text(&mut v, "Save ");
    push_text(&mut v, name);
    push_text(&mut v, " failed: ");
    push_text(&mut v, error);
    string_of(v.as_slice())
}

/// `"ZhuJia scrape failed: <error>"`: the pig-price page could not be read.
pub fn pig_scrape_failed_message(error: &str) -> (m: String)
    ensures
        m@ == "ZhuJia scrape failed: "@ + error@,
{
    let mut v: Vec<char> = Vec::new();
    push_text(&mut v, "ZhuJia scrape failed: ");
    push_text(&mut v, error);
    string_of(v.as_slice())
}

/// `"<name> scrape failed: <error>"`: a 100ppi page could not be read.
pub fn scrape_failed_message(name: &str, error: &str) -> (m: String)
    ensures
        m@ == name@ + " scrape failed: "@ + error@,
{
    let mut v: Vec<char> = Vec::new();
    push_text(&mut v, name);
    push_text(&mut v, " scrape failed: ");
    push_text(&mut v, error);
    string_of(v.as_slice())
}

/// The message of a scrape error.
pub fn scrape_error_message(err: &ScrapeError) -> (m: String)
    ensures
        m@ == match err {
            ScrapeError::Selector => "CSS error: a selector of the card layout does not parse"@,
            ScrapeError::NoCards => "未能在猪价网找到任何商品价格数据"@,
            ScrapeError::NoPrice { name, url } => "未能在 100ppi.com 找到 "@ + name@
                + " 的价格数据，请检查 CSS 选择器。URL: "@ + url@,
        },
{
    match err {
        ScrapeError::Selector => "CSS error: a selector of the card layout does not parse".to_owned(),
        ScrapeError::NoCards => "未能在猪价网找到任何商品价格数据".to_owned(),
        ScrapeError::NoPrice { name, url } => {
            let mut v: Vec<char> = Vec::new();
            push_text(&mut v, "未能在 100ppi.com 找到 ");
            push_text(&mut v, name.as_str());
            push_text(&mut v, " 的价格数据，请检查 CSS 选择器。URL: ");
            push_text(&mut v, url.as_str());
            string_of(v.as_slice())
        },
    }
}

} // verus!
