//! The pieces of text that the commodity pages show for a trend and for a
//! collection run.
use vstd::prelude::*;
use crate::text::{
    chars_of, decimal, lemma_text_le_total, lemma_text_le_trans, push_decimal, push_text, string_of, text_le,
    text_le_exec,
};
use crate::trend::TrendDirection;

verus! {

/// `parts` with `sep` between each two, as `[String]::join` gives them.
pub open spec fn joined(parts: Seq<Seq<char>>, sep: Seq<char>) -> Seq<char>
    decreases parts.len(),
{
    if parts.len() == 0 {
        Seq::empty()
    } else if parts.len() == 1 {
        parts[0]
    } else {
        joined(parts.drop_last(), sep) + sep + parts.last()
    }
}

/// `parts` joined with `sep` between each two.
pub fn join_texts(parts: &Vec<String>, sep: &str) -> (r: String)
    ensures
        r@ == joined(parts@.map_values(|s: String| s@), sep@),
{
    let ghost views = parts@.map_values(|s: String| s@);
    let mut out: Vec<char> = Vec::new();
    let mut i: usize = 0;
    while i < parts.len()
        invariant
            i <= parts@.len(),
            views == parts@.map_values(|s: String| s@),
            out@ == joined(views.take(i as int), sep@),
        decreases parts.len() - i,
    {
        assert(views.take(i + 1).drop_last() =~= views.take(i as int));
        assert(views.take(i + 1).last() == parts@[i as int]@);
        if i > 0 {
            push_text(&mut out, sep);
        } else {
            assert(views.take(0) =~= Seq::<Seq<char>>::empty());
            assert(out@ =~= Seq::<char>::empty());
        }
        push_text(&mut out, parts[i].as_str());
        assert(i == 0 ==> out@ =~= views.take(1)[0]);
        i += 1;
    }
    assert(views.take(parts@.len() as int) =~= views);
    string_of(out.as_slice())
}

/// The status block that a manual refresh answers with: the messages of
/// the run, one per line.
pub fn refresh_report(messages: &Vec<String>) -> (r: String)
    ensures
        r@ == "<div id=\"refresh-status\" class=\"alert alert-info\">"@ + joined(
            messages@.map_values(|s: String| s@),
            "<br>"@,
        ) + "</div>"@,
{
    let body = join_texts(messages, "<br>");
    let mut out: Vec<char> = Vec::new();
    push_text(&mut out, "<div id=\"refresh-status\" class=\"alert alert-info\">");
    push_text(&mut out, body.as_str());
    push_text(&mut out, "</div>");
    string_of(out.as_slice())
}

/// The label and style of a commodity's trend badge on the dashboard.
pub open spec fn badge_spec(trend: Option<(TrendDirection, u32)>) -> (Seq<char>, Seq<char>) {
    match trend {
        Some((TrendDirection::Up, days)) => (
            "up "@ + "上涨"@ + " "@ + decimal(days as nat),
            "badge bg-danger"@,
        ),
        Some((TrendDirection::Down, days)) => (
            "down "@ + "下跌"@ + " "@ + decimal(days as nat),
            "badge bg-success"@,
        ),
        Some((TrendDirection::Flat, _)) => ("flat"@, "badge bg-secondary"@),
        None => ("nodata"@, "badge bg-secondary"@),
    }
}

/// The trend badge for a trend's direction and consecutive days, or for
/// no trend.
pub fn trend_badge(trend: Option<(TrendDirection, u32)>) -> (r: (String, String))
    ensures
        (r.0@, r.1@) == badge_spec(trend),
{
    match trend {
        Some((TrendDirection::Up, days)) | Some((TrendDirection::Down, days)) => {
            let up = match trend {
                Some((TrendDirection::Up, _)) => true,
                _ => false,
            };
            let mut out: Vec<char> = Vec::new();
            push_text(&mut out, if up { "up " } else { "down " });
            let d = if up { TrendDirection::Up } else { TrendDirection::Down };
            push_text(&mut out, d.label());
            push_text(&mut out, " ");
            push_decimal(&mut out, days as u64);
            let class = if up { "badge bg-danger" } else { "badge bg-success" };
            (string_of(out.as_slice()), class.to_owned())
        },
        Some((TrendDirection::Flat, _)) => ("flat".to_owned(), "badge bg-secondary".to_owned()),
        None => ("nodata".to_owned(), "badge bg-secondary".to_owned()),
    }
}

/// The style of the latest change on the dashboard, by its sign: rising
/// green, falling red, muted where there is no change or it is neither.
pub fn change_class(sign: Option<TrendDirection>) -> (c: &'static str)
    ensures
        c@ == match sign {
            Some(TrendDirection::Up) => "text-success"@,
            Some(TrendDirection::Down) => "text-danger"@,
            _ => "text-muted"@,
        },
{
    match sign {
        Some(TrendDirection::Up) => "text-success",
        Some(TrendDirection::Down) => "text-danger",
        _ => "text-muted",
    }
}

/// The latest of some texts in text order; empty where there are none.
pub open spec fn latest_text(s: Seq<Seq<char>>) -> Seq<char>
    decreases s.len(),
{
    if s.len() == 0 {
        Seq::empty()
    } else {
        let m = latest_text(s.drop_last());
        if text_le(m, s.last()) {
            s.last()
        } else {
            m
        }
    }
}

/// The latest text is one of the texts, and none comes after it.
pub proof fn law_latest_text(s: Seq<Seq<char>>)
    ensures
        s.len() > 0 ==> s.contains(latest_text(s)),
        forall|i: int| 0 <= i < s.len() ==> text_le(#[trigger] s[i], latest_text(s)),
    decreases s.len(),
{
    if s.len() > 0 {
        let s0 = s.drop_last();
        let m = latest_text(s0);
        law_latest_text(s0);
        lemma_text_le_total(m, s.last());
        if s0.len() > 0 {
            let k = choose|k: int| 0 <= k < s0.len() && s0[k] == m;
            assert(s[k] == m);
        }
        assert forall|i: int| 0 <= i < s.len() implies text_le(#[trigger] s[i], latest_text(s)) by {
            if i < s.len() - 1 {
                assert(s[i] == s0[i]);
                assert(text_le(s0[i], m));
                if text_le(m, s.last()) {
                    lemma_text_le_trans(s[i], m, s.last());
                }
            } else {
                assert(s[i] == s.last());
                lemma_text_le_total(s.last(), s.last());
            }
        }
        assert(s[s.len() - 1] == s.last());
    }
}

/// The time of the last collection that the dashboard shows: the latest of
/// the commodities' update stamps (`%Y-%m-%dT%H:%M:%S%:z`, whose text order
/// is their time order within one offset), or `N/A` where none has one.
pub fn last_collected(stamps: &Vec<String>) -> (r: String)
    ensures
        r@ == if latest_text(stamps@.map_values(|s: String| s@)).len() == 0 {
            "N/A"@
        } else {
            latest_text(stamps@.map_values(|s: String| s@))
        },
{
    let ghost views = stamps@.map_values(|s: String| s@);
    let mut best: Vec<char> = Vec::new();
    let mut i: usize = 0;
    assert(views.take(0) =~= Seq::<Seq<char>>::empty());
    while i < stamps.len()
        invariant
            i <= stamps@.len(),
            views == stamps@.map_values(|s: String| s@),
            best@ == latest_text(views.take(i as int)),
        decreases stamps.len() - i,
    {
        assert(views.take(i + 1).drop_last() =~= views.take(i as int));
        assert(views.take(i + 1).last() == stamps@[i as int]@);
        let c = chars_of(stamps[i].as_str());
        if text_le_exec(best.as_slice(), c.as_slice()) {
            best = c;
        }
        i += 1;
    }
    assert(views.take(stamps@.len() as int) =~= views);
    if best.len() == 0 {
        "N/A".to_owned()
    } else {
        string_of(best.as_slice())
    }
}

} // verus!
