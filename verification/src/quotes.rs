//! Reading the quote feed of the Sina finance service: one line per
//! symbol, `var hq_str_<symbol>="<comma-separated fields>";`. Numbers that
//! the feed gives with a fraction are kept as their text, for the caller to
//! read as floating point.
use vstd::prelude::*;
use crate::text::{
    char_views, chars_of, find_char, find_last, rfind_char, find_first, lemma_find_first, lemma_find_first_at, parse_u64, parse_unsigned, split_chars,
    split_on, starts_with, starts_with_chars, string_of, sub_chars, trim, trim_chars, trim_end_char,
    trim_end_chars, trim_start_char, trim_start_chars, lines_of, strip_cr, trim_start, trim_end,
};

verus! {

/// One quote line of the feed, its numbers with a fraction as text.
#[derive(Clone, Debug)]
pub struct RawQuote {
    pub symbol: String,
    pub name: String,
    pub open: String,
    pub prev_close: String,
    pub price: String,
    pub high: String,
    pub low: String,
    pub volume: u64,
    pub amount: String,
    pub date: String,
    pub time: String,
}

/// What a quote line begins with, before the symbol.
pub open spec fn quote_prefix() -> Seq<char> {
    seq!['v', 'a', 'r', ' ', 'h', 'q', '_', 's', 't', 'r', '_']
}

/// The field text of a quote line, from what follows its `=`: trimmed, then
/// without trailing `;`, then without surrounding `"`.
pub open spec fn quote_data(right: Seq<char>) -> Seq<char> {
    trim_end_char(trim_start_char(trim_end_char(trim(right), ';'), '"'), '"')
}

/// The fewest fields a quote line has.
pub const MIN_QUOTE_FIELDS: usize = 32;

/// The symbol and the fields of a quote line, or none where the line has no
/// `=`, does not begin with the quote prefix, has no field text, or has
/// fewer than `MIN_QUOTE_FIELDS` fields.
pub open spec fn quote_of_line(line: Seq<char>) -> Option<(Seq<char>, Seq<Seq<char>>)> {
    match find_first(line, '=') {
        Some(p) => {
            let left = line.take(p);
            let data = quote_data(line.skip(p + 1));
            if !starts_with(left, quote_prefix()) || data.len() == 0 || split_on(data, ',').len() < 32 {
                None
            } else {
                Some((left.skip(quote_prefix().len() as int), split_on(data, ',')))
            }
        },
        None => None,
    }
}

/// The quotes of the lines that are quote lines, in order.
pub open spec fn quotes_of_lines(lines: Seq<Seq<char>>) -> Seq<(Seq<char>, Seq<Seq<char>>)>
    decreases lines.len(),
{
    if lines.len() == 0 {
        Seq::empty()
    } else {
        let rest = quotes_of_lines(lines.drop_first());
        match quote_of_line(lines[0]) {
            Some(q) => seq![q] + rest,
            None => rest,
        }
    }
}

/// The volume that a field gives: its trimmed text read as a whole number,
/// 0 where it is not one.
pub open spec fn volume_of(f: Seq<char>) -> nat {
    match parse_unsigned(trim(f), u64::MAX as nat) {
        Some(n) => n,
        None => 0,
    }
}

/// `q` holds the symbol and, by position, the fields of a quote line: name
/// first, then open, previous close, price, high and low, volume at 8,
/// amount at 9, date at 30 and time at 31.
pub open spec fn quote_holds(q: RawQuote, line: (Seq<char>, Seq<Seq<char>>)) -> bool {
    let f = line.1;
    &&& f.len() >= 32
    &&& q.symbol@ == line.0
    &&& q.name@ == f[0]
    &&& q.open@ == f[1]
    &&& q.prev_close@ == f[2]
    &&& q.price@ == f[3]
    &&& q.high@ == f[4]
    &&& q.low@ == f[5]
    &&& q.volume == volume_of(f[8])
    &&& q.amount@ == f[9]
    &&& q.date@ == f[30]
    &&& q.time@ == f[31]
}

/// The quotes of a feed text.
pub open spec fn quotes_in(text: Seq<char>) -> Seq<(Seq<char>, Seq<Seq<char>>)> {
    quotes_of_lines(lines_of(text))
}

fn field(fields: &Vec<Vec<char>>, k: usize) -> (s: String)
    requires
        k < fields@.len(),
    ensures
        s@ == fields@[k as int]@,
{
    string_of(fields[k].as_slice())
}

/// The quote of one line, where it is a quote line.
pub fn quote_line(line: &[char]) -> (r: Option<RawQuote>)
    ensures
        match quote_of_line(line@) {
            Some(q) => r matches Some(x) && quote_holds(x, q),
            None => r is None,
        },
{
    proof {
        lemma_find_first(line@, '=');
    }
    let p = match find_char(line, 0, '=') {
        Some(p) => p,
        None => {
            assert(line@.skip(0) =~= line@);
            return None;
        },
    };
    assert(line@.skip(0) =~= line@);
    let n = line.len();
    assert(find_first(line@, '=') is Some);
    assert(p == find_first(line@, '=')->0);
    let left = sub_chars(line, 0, p);
    let right = sub_chars(line, p + 1, line.len());
    assert(left@ =~= line@.take(p as int));
    assert(right@ =~= line@.skip(p + 1));
    let prefix: Vec<char> = vec!['v', 'a', 'r', ' ', 'h', 'q', '_', 's', 't', 'r', '_'];
    assert(prefix@ =~= quote_prefix());
    if !starts_with_chars(left.as_slice(), prefix.as_slice()) {
        return None;
    }
    let t = trim_chars(right.as_slice());
    let t = trim_end_chars(t.as_slice(), ';');
    let t = trim_start_chars(t.as_slice(), '"');
    let data = trim_end_chars(t.as_slice(), '"');
    if data.len() == 0 {
        return None;
    }
    let fields = split_chars(data.as_slice(), ',');
    assert(fields@.len() == split_on(data@, ',').len());
    if fields.len() < MIN_QUOTE_FIELDS {
        return None;
    }
    let symbol = sub_chars(left.as_slice(), prefix.len(), left.len());
    assert(symbol@ =~= left@.skip(quote_prefix().len() as int));
    let f = &fields;
    assert(forall|k: int| 0 <= k < fields@.len() ==> #[trigger] fields@[k]@ == split_on(data@, ',')[k]) by {
        assert forall|k: int| 0 <= k < fields@.len() implies #[trigger] fields@[k]@ == split_on(data@, ',')[k] by {
            assert(char_views(fields@)[k] == fields@[k]@);
        }
    }
    let volume_text = field(f, 8);
    Some(RawQuote {
        symbol: string_of(symbol.as_slice()),
        name: field(f, 0),
        open: field(f, 1),
        prev_close: field(f, 2),
        price: field(f, 3),
        high: field(f, 4),
        low: field(f, 5),
        volume: parse_u64(volume_text.as_str()),
        amount: field(f, 9),
        date: field(f, 30),
        time: field(f, 31),
    })
}

/// Every quote line of the feed text, in order; other lines are skipped.
pub fn parse_quotes(text: &str) -> (r: Vec<RawQuote>)
    ensures
        r@.len() == quotes_in(text@).len(),
        forall|i: int| 0 <= i < r@.len() ==> quote_holds(#[trigger] r@[i], quotes_in(text@)[i]),
{
    let v = chars_of(text);
    let n = v.len();
    let mut out: Vec<RawQuote> = Vec::new();
    let ghost mut done: Seq<(Seq<char>, Seq<Seq<char>>)> = Seq::empty();
    let mut start: usize = 0;
    assert(v@.skip(0) =~= v@);
    loop
        invariant
            n == v@.len(),
            v@ == text@,
            start <= n,
            done + quotes_of_lines(lines_of(v@.skip(start as int))) == quotes_in(text@),
            out@.len() == done.len(),
            forall|i: int| 0 <= i < out@.len() ==> quote_holds(#[trigger] out@[i], done[i]),
        decreases n - start,
    {
        let ghost rest = v@.skip(start as int);
        if start == n {
            assert(rest.len() == 0);
            assert(done =~= quotes_in(text@));
            return out;
        }
        proof {
            lemma_find_first(rest, '\n');
        }
        let (line, next) = match find_char(v.as_slice(), start, '\n') {
            Some(p) => {
                assert(find_first(rest, '\n') is Some);
                let ghost i = find_first(rest, '\n')->0;
                assert(p == start + i);
                let mut line = sub_chars(v.as_slice(), start, p);
                assert(line@ =~= rest.take(i));
                if line.len() > 0 && line[line.len() - 1] == '\r' {
                    line.pop();
                }
                assert(rest.skip(i + 1) =~= v@.skip(p + 1));
                assert(lines_of(rest) == seq![line@] + lines_of(v@.skip(p + 1)));
                (line, p + 1)
            },
            None => {
                let line = sub_chars(v.as_slice(), start, n);
                assert(line@ =~= rest);
                assert(v@.skip(n as int) =~= Seq::<char>::empty());
                assert(lines_of(rest) =~= seq![line@] + lines_of(v@.skip(n as int)));
                (line, n)
            },
        };
        let ghost ls = lines_of(rest);
        assert(ls[0] == line@);
        assert(ls.drop_first() =~= lines_of(v@.skip(next as int)));
        match quote_line(line.as_slice()) {
            Some(q) => {
                let ghost parsed = quote_of_line(line@)->0;
                proof {
                    done = done.push(parsed);
                }
                out.push(q);
                assert(done + quotes_of_lines(lines_of(v@.skip(next as int))) =~= done.drop_last() + quotes_of_lines(ls));
            },
            None => {
                assert(done + quotes_of_lines(lines_of(v@.skip(next as int))) == done + quotes_of_lines(ls));
            },
        }
        start = next;
    }
}


/// The text that `encoding_rs::GBK.decode` gives for `bytes`.
pub uninterp spec fn gbk_decoded(bytes: Seq<u8>) -> Seq<char>;

/// `encoding_rs::Encoding::decode` on `GBK`: decodes the bytes as GBK
/// unless they begin with a UTF-8 or UTF-16 byte-order mark, replacing
/// malformed sequences. Its result, a function of the bytes alone, is named
/// `gbk_decoded` and not described further. It panics only where the size
/// of its output buffer, at most a few bytes more than three per input byte,
/// overflows `usize`, which the bound on the input rules out.
#[verifier::external_body]
fn decode_gbk(bytes: &[u8]) -> (s: String)
    requires
        bytes@.len() <= usize::MAX / 4,
    ensures
        s@ == gbk_decoded(bytes@),
{
    let (text, _, _) = encoding_rs::GBK.decode(bytes);
    text.into_owned()
}

/// Every quote line of a feed body in the GBK encoding, in order.
pub fn parse_quote_bytes(bytes: &[u8]) -> (r: Vec<RawQuote>)
    requires
        bytes@.len() <= usize::MAX / 4,
    ensures
        r@.len() == quotes_in(gbk_decoded(bytes@)).len(),
        forall|i: int| 0 <= i < r@.len() ==> quote_holds(#[trigger] r@[i], quotes_in(gbk_decoded(bytes@))[i]),
{
    let text = decode_gbk(bytes);
    parse_quotes(text.as_str())
}

/// Why no candle list was found in a chart reply.
#[derive(PartialEq, Eq, Structural, Clone, Copy, Debug)]
pub enum CandleJsonError {
    /// There is no `[`.
    NoStart,
    /// There is no `]`.
    NoEnd,
    /// The last `]` comes before the first `[`.
    BadRange,
}

/// The JSON list in a chart reply: from the first `[` to the last `]`.
pub open spec fn candle_json_spec(text: Seq<char>) -> Result<Seq<char>, CandleJsonError> {
    match find_first(text, '[') {
        None => Err(CandleJsonError::NoStart),
        Some(s) => match find_last(text, ']') {
            None => Err(CandleJsonError::NoEnd),
            Some(e) => if e < s {
                Err(CandleJsonError::BadRange)
            } else {
                Ok(text.subrange(s, e + 1))
            },
        },
    }
}

/// The JSON list in a chart reply, which wraps it in a script call.
pub fn candle_json(text: &str) -> (r: Result<String, CandleJsonError>)
    ensures
        match candle_json_spec(text@) {
            Ok(j) => r matches Ok(s) && s@ == j,
            Err(e) => r == Err::<String, CandleJsonError>(e),
        },
{
    let v = chars_of(text);
    let n = v.len();
    assert(v@.skip(0) =~= v@);
    proof {
        lemma_find_first(v@, '[');
    }
    let start = match find_char(v.as_slice(), 0, '[') {
        Some(s) => s,
        None => return Err(CandleJsonError::NoStart),
    };
    assert(find_first(v@, '[') is Some);
    assert(start == find_first(v@, '[')->0);
    let end = match rfind_char(v.as_slice(), ']') {
        Some(e) => e,
        None => return Err(CandleJsonError::NoEnd),
    };
    proof {
        lemma_find_last_bound(v@, ']');
    }
    assert(find_last(v@, ']') is Some);
    assert(end == find_last(v@, ']')->0);
    if end < start {
        return Err(CandleJsonError::BadRange);
    }
    let j = sub_chars(v.as_slice(), start, end + 1);
    Ok(string_of(j.as_slice()))
}

proof fn lemma_find_last_bound(s: Seq<char>, c: char)
    ensures
        find_last(s, c) matches Some(i) ==> 0 <= i < s.len(),
    decreases s.len(),
{
    if s.len() > 0 && s.last() != c {
        lemma_find_last_bound(s.drop_last(), c);
    }
}

/// `fields` with a comma between each two.
pub open spec fn comma_joined(fields: Seq<Seq<char>>) -> Seq<char>
    decreases fields.len(),
{
    if fields.len() <= 1 {
        if fields.len() == 1 {
            fields[0]
        } else {
            Seq::empty()
        }
    } else {
        fields[0] + seq![','] + comma_joined(fields.drop_first())
    }
}

/// The feed line that quotes `symbol` with `fields`:
/// `var hq_str_<symbol>="<fields joined by commas>";`.
pub open spec fn feed_line(symbol: Seq<char>, fields: Seq<Seq<char>>) -> Seq<char> {
    quote_prefix() + symbol + seq!['=', '"'] + comma_joined(fields) + seq!['"', ';']
}

/// No character of `s` is `c`.
pub open spec fn free_of(s: Seq<char>, c: char) -> bool {
    forall|j: int| 0 <= j < s.len() ==> s[j] != c
}

proof fn lemma_joined_free(fields: Seq<Seq<char>>, c: char)
    requires
        c != ',',
        forall|i: int| 0 <= i < fields.len() ==> free_of(#[trigger] fields[i], c),
    ensures
        free_of(comma_joined(fields), c),
    decreases fields.len(),
{
    if fields.len() > 1 {
        let rest = fields.drop_first();
        assert forall|i: int| 0 <= i < rest.len() implies free_of(#[trigger] rest[i], c) by {
            assert(rest[i] == fields[i + 1]);
        }
        lemma_joined_free(rest, c);
        let j = comma_joined(fields);
        assert(free_of(fields[0], c));
        assert forall|k: int| 0 <= k < j.len() implies j[k] != c by {
            if k < fields[0].len() {
                assert(j[k] == fields[0][k]);
            } else if k > fields[0].len() {
                assert(j[k] == comma_joined(rest)[k - fields[0].len() - 1]);
            }
        }
    } else if fields.len() == 1 {
        assert(free_of(fields[0], c));
    }
}

proof fn lemma_split_joined(fields: Seq<Seq<char>>)
    requires
        fields.len() >= 1,
        forall|i: int| 0 <= i < fields.len() ==> free_of(#[trigger] fields[i], ','),
    ensures
        split_on(comma_joined(fields), ',') == fields,
    decreases fields.len(),
{
    let f0 = fields[0];
    assert(free_of(f0, ','));
    if fields.len() == 1 {
        lemma_find_first_at(f0, ',', f0.len() as int);
        assert(seq![f0] =~= fields);
    } else {
        let rest = fields.drop_first();
        let j = comma_joined(fields);
        assert(j == f0 + seq![','] + comma_joined(rest));
        assert forall|k: int| 0 <= k < f0.len() implies j[k] != ',' by {
            assert(j[k] == f0[k]);
        }
        assert(j[f0.len() as int] == ',');
        lemma_find_first_at(j, ',', f0.len() as int);
        assert(j.take(f0.len() as int) =~= f0);
        assert(j.skip(f0.len() as int + 1) =~= comma_joined(rest));
        assert forall|i: int| 0 <= i < rest.len() implies free_of(#[trigger] rest[i], ',') by {
            assert(rest[i] == fields[i + 1]);
        }
        lemma_split_joined(rest);
        assert(seq![f0] + rest =~= fields);
    }
}

/// A feed line for `symbol` with at least `MIN_QUOTE_FIELDS` fields, none
/// holding a comma or a quote mark, reads as a quote of `symbol` with those
/// fields, and the quote read from it holds, by position: the name (field
/// 0), the opening price (1), the previous close (2), the current price
/// (3), the day's high (4) and low (5), the traded amount (9), the date
/// (30) and the time (31).
pub proof fn law_feed_line_fields(symbol: Seq<char>, fields: Seq<Seq<char>>, q: RawQuote)
    requires
        fields.len() >= 32,
        free_of(symbol, '='),
        forall|i: int| 0 <= i < fields.len() ==> free_of(#[trigger] fields[i], ',') && free_of(fields[i], '"'),
    ensures
        quote_of_line(feed_line(symbol, fields)) == Some((symbol, fields)),
        quote_holds(q, (symbol, fields)) ==> {
            &&& q.symbol@ == symbol
            &&& q.name@ == fields[0]
            &&& q.open@ == fields[1]
            &&& q.prev_close@ == fields[2]
            &&& q.price@ == fields[3]
            &&& q.high@ == fields[4]
            &&& q.low@ == fields[5]
            &&& q.amount@ == fields[9]
            &&& q.date@ == fields[30]
            &&& q.time@ == fields[31]
        },
{
    let pre = quote_prefix();
    let line = feed_line(symbol, fields);
    let jn = comma_joined(fields);
    let p: int = (pre.len() + symbol.len()) as int;
    assert forall|k: int| 0 <= k < pre.len() implies pre[k] != '=' by {
        if k == 0 {} else if k == 1 {} else if k == 2 {} else if k == 3 {} else if k == 4 {}
        else if k == 5 {} else if k == 6 {} else if k == 7 {} else if k == 8 {} else if k == 9 {}
        else {}
    }
    // The `=` after the symbol is the first one.
    assert forall|k: int| 0 <= k < p implies line[k] != '=' by {
        if k < pre.len() {
            assert(line[k] == pre[k]);
        } else {
            assert(line[k] == symbol[k - pre.len()]);
        }
    }
    assert(line[p] == '=');
    lemma_find_first_at(line, '=', p);
    let left = line.take(p);
    assert(left =~= pre + symbol);
    assert(left.take(pre.len() as int) =~= pre);
    assert(starts_with(left, pre));
    assert(left.skip(pre.len() as int) =~= symbol);
    // What follows the `=` is the joined fields in quotes, then `;`.
    let right = line.skip(p + 1);
    assert(right =~= seq!['"'] + jn + seq!['"', ';']);
    assert(trim_start(right) == right);
    assert(trim_end(right) == right);
    let x = right.drop_last();
    assert(x =~= seq!['"'] + jn + seq!['"']);
    assert(trim_end_char(x, ';') == x);
    assert(trim_end_char(right, ';') == x);
    assert forall|i: int| 0 <= i < fields.len() implies free_of(#[trigger] fields[i], '"') by {}
    lemma_joined_free(fields, '"');
    assert(fields.len() > 1);
    assert(jn == fields[0] + seq![','] + comma_joined(fields.drop_first()));
    assert(jn.len() > 0);
    let y = x.drop_first();
    assert(y =~= jn + seq!['"']);
    assert(y[0] == jn[0]);
    assert(trim_start_char(y, '"') == y);
    assert(trim_start_char(x, '"') == y);
    assert(y.drop_last() =~= jn);
    assert(jn.last() == jn[jn.len() - 1]);
    assert(trim_end_char(jn, '"') == jn);
    assert(trim_end_char(y, '"') == jn);
    assert(quote_data(right) == jn);
    lemma_split_joined(fields);
}

} // verus!
