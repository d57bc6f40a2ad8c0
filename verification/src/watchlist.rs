//! The watch list of a desktop stock ticker: which symbols are watched,
//! which one is on screen, and when quotes and charts are asked for. The
//! window, the timers and the network worker live with the caller, which
//! hands over what happened (time elapsed, replies) and carries out what is
//! decided here.
use vstd::prelude::*;
use crate::text::{chars_of, string_of, trim, trim_chars, all_digits, is_digit_char, starts_with};

verus! {

/// `str::to_lowercase`: the lowercase mapping of every character.
pub uninterp spec fn lowercase_of(s: Seq<char>) -> Seq<char>;

/// `str::to_lowercase`, whose result this library names `lowercase_of`
/// without describing the Unicode case tables.
#[verifier::external_body]
fn lowercase(s: &str) -> (r: String)
    ensures
        r@ == lowercase_of(s@),
{
    s.to_lowercase()
}

/// What the settings of the ticker hold.
#[derive(Clone, Debug)]
pub struct AppConfig {
    pub symbols: Vec<String>,
    pub rotation_interval_secs: u64,
    pub quote_refresh_secs: u64,
}

impl Default for AppConfig {
    /// The Shanghai and Shenzhen composite indexes and Kweichow Moutai,
    /// rotating every 6 seconds, quotes refreshed every 12.
    fn default() -> (c: Self)
        ensures
            c.symbols@.len() == 3,
            c.symbols@[0]@ == "sh000001"@,
            c.symbols@[1]@ == "sz399001"@,
            c.symbols@[2]@ == "sh600519"@,
            c.rotation_interval_secs == 6,
            c.quote_refresh_secs == 12,
    {
        let mut symbols: Vec<String> = Vec::new();
        symbols.push("sh000001".to_owned());
        symbols.push("sz399001".to_owned());
        symbols.push("sh600519".to_owned());
        AppConfig { symbols, rotation_interval_secs: 6, quote_refresh_secs: 12 }
    }
}

/// The file that the settings are kept in.
pub fn config_path() -> (p: String)
    ensures
        p@ == "stock-monitor.json"@,
{
    "stock-monitor.json".to_owned()
}

/// The exchange prefix that a six-digit code beginning with `c` belongs to:
/// Shanghai for 6, 5 and 9; Shenzhen for 0 to 3; Beijing for 4 and 8.
pub open spec fn market_of(c: char) -> Option<Seq<char>> {
    if c == '6' || c == '5' || c == '9' {
        Some(seq!['s', 'h'])
    } else if c == '0' || c == '1' || c == '2' || c == '3' {
        Some(seq!['s', 'z'])
    } else if c == '4' || c == '8' {
        Some(seq!['b', 'j'])
    } else {
        None
    }
}

/// A lowercased, trimmed symbol with its exchange prefix: kept as it is
/// where it already starts with `sh`, `sz` or `bj`, or is not six ASCII
/// digits (six digits are six bytes, the length that is tested); otherwise
/// prefixed by the exchange of its first digit, where that digit names one.
pub open spec fn market_symbol_spec(t: Seq<char>) -> Seq<char> {
    if starts_with(t, seq!['s', 'h']) || starts_with(t, seq!['s', 'z']) || starts_with(t, seq!['b', 'j']) {
        t
    } else if t.len() != 6 || !all_digits(t) {
        t
    } else {
        match market_of(t[0]) {
            Some(m) => m + t,
            None => t,
        }
    }
}

/// The exchanges of bare six-digit codes: a code beginning with 6, 5 or 9
/// trades in Shanghai (`sh`), one beginning with 0, 1, 2 or 3 in Shenzhen
/// (`sz`), one beginning with 4 or 8 in Beijing (`bj`); a code beginning
/// with 7 gets no prefix. The digits themselves are kept.
pub proof fn law_exchange_of_code(code: Seq<char>)
    requires
        code.len() == 6,
        all_digits(code),
    ensures
        (code[0] == '6' || code[0] == '5' || code[0] == '9') ==> market_symbol_spec(code) == seq!['s', 'h'] + code,
        (code[0] == '0' || code[0] == '1' || code[0] == '2' || code[0] == '3') ==> market_symbol_spec(code) == seq!['s', 'z'] + code,
        (code[0] == '4' || code[0] == '8') ==> market_symbol_spec(code) == seq!['b', 'j'] + code,
        code[0] == '7' ==> market_symbol_spec(code) == code,
        market_symbol_spec(code).len() == 6 || market_symbol_spec(code).skip(2) == code,
{
    assert(crate::text::is_digit(code[0]));
    assert(!starts_with(code, seq!['s', 'h'])) by {
        if starts_with(code, seq!['s', 'h']) {
            assert(code.take(2)[0] == 's');
        }
    }
    assert(!starts_with(code, seq!['s', 'z'])) by {
        if starts_with(code, seq!['s', 'z']) {
            assert(code.take(2)[0] == 's');
        }
    }
    assert(!starts_with(code, seq!['b', 'j'])) by {
        if starts_with(code, seq!['b', 'j']) {
            assert(code.take(2)[0] == 'b');
        }
    }
    let r = market_symbol_spec(code);
    if r != code {
        assert(r.skip(2) =~= code);
    }
}

/// Giving a symbol its exchange prefix twice is giving it once: a prefixed
/// symbol is left as it is.
pub proof fn law_prefixing_is_idempotent(t: Seq<char>)
    ensures
        market_symbol_spec(market_symbol_spec(t)) == market_symbol_spec(t),
{
    let r = market_symbol_spec(t);
    if r != t {
        let m = market_of(t[0])->0;
        assert(r == m + t);
        assert(r.take(2) =~= m);
        assert(starts_with(r, m));
    }
}

fn starts_with_pair(t: &Vec<char>, a: char, b: char) -> (r: bool)
    ensures
        r == starts_with(t@, seq![a, b]),
{
    let r = t.len() >= 2 && t[0] == a && t[1] == b;
    assert(r ==> t@.take(2) =~= seq![a, b]);
    assert(t@.len() >= 2 && t@.take(2) == seq![a, b] ==> t@[0] == a && t@[1] == b) by {
        if t@.len() >= 2 && t@.take(2) == seq![a, b] {
            assert(t@.take(2)[0] == t@[0]);
            assert(t@.take(2)[1] == t@[1]);
        }
    }
    r
}

/// `lowered` with its exchange prefix, where it lacks one.
pub fn market_symbol(lowered: &str) -> (r: String)
    ensures
        r@ == market_symbol_spec(lowered@),
{
    let t = chars_of(lowered);
    if starts_with_pair(&t, 's', 'h') || starts_with_pair(&t, 's', 'z') || starts_with_pair(&t, 'b', 'j') {
        return string_of(t.as_slice());
    }
    if t.len() != 6 {
        return string_of(t.as_slice());
    }
    let mut k: usize = 0;
    while k < 6
        invariant
            k <= 6,
            t@.len() == 6,
            t@ == lowered@,
            !(starts_with(t@, seq!['s', 'h']) || starts_with(t@, seq!['s', 'z']) || starts_with(t@, seq!['b', 'j'])),
            forall|i: int| 0 <= i < k ==> crate::text::is_digit(#[trigger] t@[i]),
        decreases 6 - k,
    {
        if !is_digit_char(t[k]) {
            assert(!crate::text::is_digit(t@[k as int]));
            return string_of(t.as_slice());
        }
        k += 1;
    }
    let c = t[0];
    let (a, b) = if c == '6' || c == '5' || c == '9' {
        ('s', 'h')
    } else if c == '0' || c == '1' || c == '2' || c == '3' {
        ('s', 'z')
    } else if c == '4' || c == '8' {
        ('b', 'j')
    } else {
        return string_of(t.as_slice());
    };
    let mut out: Vec<char> = Vec::new();
    out.push(a);
    out.push(b);
    let mut k: usize = 0;
    while k < 6
        invariant
            k <= 6,
            t@.len() == 6,
            out@ == seq![a, b] + t@.take(k as int),
        decreases 6 - k,
    {
        out.push(t[k]);
        assert(out@ =~= seq![a, b] + t@.take(k + 1));
        k += 1;
    }
    assert(t@.take(6) =~= t@);
    string_of(out.as_slice())
}

/// What an entered symbol becomes: trimmed, lowercased, and given its
/// exchange prefix where it is a bare six-digit code.
pub fn normalize_symbol(input: &str) -> (r: String)
    ensures
        r@ == market_symbol_spec(lowercase_of(trim(input@))),
{
    let v = chars_of(input);
    let t = string_of(trim_chars(v.as_slice()).as_slice());
    let lowered = lowercase(t.as_str());
    market_symbol(lowered.as_str())
}

/// The state of the ticker that its decisions read and change.
pub struct Watchlist {
    pub config: AppConfig,
    pub current_index: usize,
    pub input_symbol: String,
    pub pending_candle_symbol: Option<String>,
    pub error: Option<String>,
}

/// The texts of a list of strings.
pub open spec fn texts(v: Seq<String>) -> Seq<Seq<char>> {
    v.map_values(|s: String| s@)
}

/// The symbol on screen: the one at the current index, wrapped around the
/// length of the list.
pub open spec fn shown_index(index: usize, len: nat) -> int {
    index as int % len as int
}

/// Where the index lands after the entry it may point past was removed:
/// kept where it is still in range, else moved to the last entry (0 for an
/// empty list).
pub open spec fn clamped_index(index: usize, len: nat) -> usize {
    if len == 0 {
        0
    } else if (index as int) < len - 1 {
        index
    } else {
        (len - 1) as usize
    }
}

/// The list after adding `s`, as `add_symbol` leaves it.
pub open spec fn added_list(before: Seq<Seq<char>>, s: Seq<char>) -> Seq<Seq<char>> {
    if s.len() == 0 || before.contains(s) {
        before
    } else {
        before.push(s)
    }
}

/// Adding never makes a symbol appear twice, and afterwards a non-empty
/// symbol is watched.
pub proof fn law_add_keeps_symbols_distinct(before: Seq<Seq<char>>, s: Seq<char>)
    requires
        before.no_duplicates(),
    ensures
        added_list(before, s).no_duplicates(),
        s.len() > 0 ==> added_list(before, s).contains(s),
{
    if !(s.len() == 0 || before.contains(s)) {
        let after = before.push(s);
        assert(after[before.len() as int] == s);
        assert forall|i: int, j: int| 0 <= i < after.len() && 0 <= j < after.len() && i != j implies after[i] != after[j] by {
            if i < before.len() && j < before.len() {
            } else if i < before.len() {
                assert(before.contains(before[i]));
            } else if j < before.len() {
                assert(before.contains(before[j]));
            }
        }
    }
}

/// Removing a symbol right after adding it gives back the list as it was.
pub proof fn law_remove_undoes_add(before: Seq<Seq<char>>, s: Seq<char>)
    requires
        !before.contains(s),
    ensures
        added_list(before, s).filter(|t: Seq<char>| t != s) == before,
{
    let pred = |t: Seq<char>| t != s;
    lemma_filter_keeps_all(before, pred);
    if s.len() > 0 {
        before.lemma_filter_push(s, pred);
    }
}

proof fn lemma_filter_keeps_all(v: Seq<Seq<char>>, pred: spec_fn(Seq<char>) -> bool)
    requires
        forall|i: int| 0 <= i < v.len() ==> pred(#[trigger] v[i]),
    ensures
        v.filter(pred) == v,
    decreases v.len(),
{
    if v.len() > 0 {
        let v0 = v.drop_last();
        lemma_filter_keeps_all(v0, pred);
        v0.lemma_filter_push(v.last(), pred);
        assert(v0.push(v.last()) =~= v);
    } else {
        reveal(Seq::filter);
        assert(v.filter(pred) =~= v);
    }
}

/// Removing a symbol leaves no entry equal to it, keeps every other entry
/// in order, and keeps the list free of repeats.
pub proof fn law_remove_drops_symbol(before: Seq<Seq<char>>, s: Seq<char>)
    requires
        before.no_duplicates(),
    ensures
        !before.filter(|t: Seq<char>| t != s).contains(s),
        forall|t: Seq<char>| t != s && before.contains(t) ==> before.filter(|u: Seq<char>| u != s).contains(t),
        before.filter(|t: Seq<char>| t != s).no_duplicates(),
{
    let pred = |t: Seq<char>| t != s;
    let after = before.filter(pred);
    broadcast use vstd::seq_lib::group_filter_ensures;
    assert forall|t: Seq<char>| t != s && before.contains(t) implies after.contains(t) by {
        let i = choose|i: int| 0 <= i < before.len() && before[i] == t;
        before.lemma_filter_contains(pred, i);
    }
    lemma_filter_distinct(before, pred);
}

proof fn lemma_filter_distinct(v: Seq<Seq<char>>, pred: spec_fn(Seq<char>) -> bool)
    requires
        v.no_duplicates(),
    ensures
        v.filter(pred).no_duplicates(),
    decreases v.len(),
{
    reveal(Seq::filter);
    if v.len() > 0 {
        let v0 = v.drop_last();
        assert forall|i: int, j: int| 0 <= i < v0.len() && 0 <= j < v0.len() && i != j implies v0[i] != v0[j] by {
            assert(v0[i] == v[i] && v0[j] == v[j]);
        }
        lemma_filter_distinct(v0, pred);
        let f0 = v0.filter(pred);
        if pred(v.last()) {
            broadcast use vstd::seq_lib::group_filter_ensures;
            assert(!f0.contains(v.last())) by {
                if f0.contains(v.last()) {
                    v0.lemma_filter_contains_rev(pred, v.last());
                    assert(v0.contains(v.last()));
                    let k = choose|k: int| 0 <= k < v0.len() && v0[k] == v.last();
                    assert(v[k] == v[v.len() - 1]);
                }
            }
            let f = f0.push(v.last());
            assert forall|i: int, j: int| 0 <= i < f.len() && 0 <= j < f.len() && i != j implies f[i] != f[j] by {
                if i < f0.len() && j < f0.len() {
                } else if i < f0.len() {
                    assert(f0.contains(f0[i]));
                } else if j < f0.len() {
                    assert(f0.contains(f0[j]));
                }
            }
        }
    }
}

/// Moving on `k` times from index `i` in a list of `n`.
pub open spec fn rotated(i: int, n: int, k: nat) -> int
    decreases k,
{
    if k == 0 {
        i
    } else {
        (rotated(i, n, (k - 1) as nat) + 1) % n
    }
}

/// The shown index stays within the list, and moving on as many times as
/// there are symbols comes back to the symbol it started from.
pub proof fn law_rotation_cycles(i: int, n: int)
    requires
        0 <= i < n,
    ensures
        rotated(i, n, n as nat) == i,
        forall|k: nat| 0 <= #[trigger] rotated(i, n, k) < n || k == 0,
{
    assert forall|k: nat| rotated(i, n, k) == (i + k) % n by {
        lemma_rotated_is_mod(i, n, k);
    }
    vstd::arithmetic::div_mod::lemma_mod_add_multiples_vanish(i, n);
    vstd::arithmetic::div_mod::lemma_small_mod(i as nat, n as nat);
    assert forall|k: nat| 0 <= #[trigger] rotated(i, n, k) < n || k == 0 by {
        lemma_rotated_is_mod(i, n, k);
        vstd::arithmetic::div_mod::lemma_mod_bound(i + k, n);
    }
}

proof fn lemma_rotated_is_mod(i: int, n: int, k: nat)
    requires
        0 <= i < n,
    ensures
        rotated(i, n, k) == (i + k) % n,
    decreases k,
{
    if k == 0 {
        vstd::arithmetic::div_mod::lemma_small_mod(i as nat, n as nat);
    } else {
        lemma_rotated_is_mod(i, n, (k - 1) as nat);
        vstd::arithmetic::div_mod::lemma_add_mod_noop(i + k - 1, 1, n);
        if n > 1 {
            vstd::arithmetic::div_mod::lemma_small_mod(1, n as nat);
        }
        if n == 1 {
            vstd::arithmetic::div_mod::lemma_mod_self_0(1);
            assert((i + k) % n == 0);
            assert((rotated(i, n, (k - 1) as nat) + 1) % n == 0);
        }
    }
}

/// After a removal the index points into the list, or is 0 when it is empty.
pub proof fn law_clamped_index_in_range(index: usize, len: nat)
    requires
        len <= usize::MAX,
    ensures
        len > 0 ==> clamped_index(index, len) < len,
        len == 0 ==> clamped_index(index, len) == 0,
{
}

impl Watchlist {
    /// A fresh ticker over `config`, showing its first symbol.
    pub fn new(config: AppConfig) -> (w: Self)
        ensures
            w.config == config,
            w.current_index == 0,
            w.input_symbol@ == Seq::<char>::empty(),
            w.pending_candle_symbol is None,
            w.error is None,
    {
        Watchlist {
            config,
            current_index: 0,
            input_symbol: String::new(),
            pending_candle_symbol: None,
            error: None,
        }
    }

    /// The symbol on screen, or none where the list is empty.
    pub fn current_symbol(&self) -> (r: Option<&str>)
        ensures
            r is None <==> self.config.symbols@.len() == 0,
            r matches Some(s) ==> s@ == self.config.symbols@[shown_index(
                self.current_index,
                self.config.symbols@.len(),
            )]@,
    {
        let len = self.config.symbols.len();
        if len == 0 {
            return None;
        }
        Some(self.config.symbols[self.current_index % len].as_str())
    }

    /// Adds the entered symbol, normalized, unless it is empty or already
    /// watched; then clears the entry. Returns whether it was added, in which
    /// case the settings are to be saved and the quotes asked for again.
    pub fn add_symbol(&mut self) -> (added: bool)
        ensures
            ({
                let s = market_symbol_spec(lowercase_of(trim(old(self).input_symbol@)));
                if s.len() == 0 || texts(old(self).config.symbols@).contains(s) {
                    &&& !added
                    &&& *final(self) == *old(self)
                } else {
                    &&& added
                    &&& texts(final(self).config.symbols@) == texts(old(self).config.symbols@).push(s)
                    &&& final(self).input_symbol@ == Seq::<char>::empty()
                    &&& final(self).current_index == old(self).current_index
                    &&& final(self).config.rotation_interval_secs == old(self).config.rotation_interval_secs
                    &&& final(self).config.quote_refresh_secs == old(self).config.quote_refresh_secs
                    &&& final(self).pending_candle_symbol == old(self).pending_candle_symbol
                    &&& final(self).error == old(self).error
                }
            }),
    {
        let symbol = normalize_symbol(self.input_symbol.as_str());
        if symbol.as_str().is_empty() {
            return false;
        }
        let mut i: usize = 0;
        while i < self.config.symbols.len()
            invariant
                i <= self.config.symbols@.len(),
                *self == *old(self),
                symbol@ == market_symbol_spec(lowercase_of(trim(old(self).input_symbol@))),
                forall|k: int| 0 <= k < i ==> #[trigger] self.config.symbols@[k]@ != symbol@,
            decreases self.config.symbols.len() - i,
        {
            if self.config.symbols[i] == symbol {
                assert(texts(self.config.symbols@)[i as int] == symbol@);
                assert(texts(self.config.symbols@).contains(symbol@));
                return false;
            }
            i += 1;
        }
        let ghost before = self.config.symbols@;
        self.config.symbols.push(symbol);
        self.input_symbol = String::new();
        assert(texts(self.config.symbols@) =~= texts(before).push(symbol@));
        true
    }

    /// Stops watching every entry equal to `symbol` and keeps the index in
    /// range. The caller drops the symbol's quotes and chart, saves the
    /// settings and asks for quotes again.
    pub fn remove_symbol(&mut self, symbol: &str)
        ensures
            texts(final(self).config.symbols@) == texts(old(self).config.symbols@).filter(
                |t: Seq<char>| t != symbol@,
            ),
            final(self).current_index == clamped_index(
                old(self).current_index,
                final(self).config.symbols@.len(),
            ),
            final(self).config.rotation_interval_secs == old(self).config.rotation_interval_secs,
            final(self).config.quote_refresh_secs == old(self).config.quote_refresh_secs,
            final(self).input_symbol == old(self).input_symbol,
            final(self).pending_candle_symbol == old(self).pending_candle_symbol,
            final(self).error == old(self).error,
    {
        let ghost pred = |t: Seq<char>| t != symbol@;
        let target = symbol.to_owned();
        let mut kept: Vec<String> = Vec::new();
        let mut i: usize = 0;
        while i < self.config.symbols.len()
            invariant
                i <= self.config.symbols@.len(),
                *self == *old(self),
                target@ == symbol@,
                pred == (|t: Seq<char>| t != symbol@),
                texts(kept@) == texts(self.config.symbols@).take(i as int).filter(pred),
            decreases self.config.symbols.len() - i,
        {
            proof {
                texts(self.config.symbols@).take(i as int).lemma_filter_push(
                    texts(self.config.symbols@)[i as int],
                    pred,
                );
                assert(texts(self.config.symbols@).take(i + 1) =~= texts(self.config.symbols@).take(
                    i as int,
                ).push(texts(self.config.symbols@)[i as int]));
            }
            let ghost before = kept@;
            if !(self.config.symbols[i] == target) {
                kept.push(self.config.symbols[i].clone());
                assert(texts(kept@) =~= texts(before).push(self.config.symbols@[i as int]@));
            }
            i += 1;
        }
        assert(texts(self.config.symbols@).take(self.config.symbols@.len() as int) =~= texts(
            self.config.symbols@,
        ));
        self.config.symbols = kept;
        let len = self.config.symbols.len();
        let last = if len == 0 { 0 } else { len - 1 };
        if self.current_index > last {
            self.current_index = last;
        }
    }

    /// Moves on to the next symbol, back to the first after the last. The
    /// caller rotates when the list is not empty and the rotation is due.
    pub fn rotate(&mut self)
        requires
            old(self).config.symbols@.len() > 0,
            old(self).current_index < usize::MAX,
        ensures
            final(self).current_index == (old(self).current_index + 1) % (old(self).config.symbols@.len() as int),
            final(self).config == old(self).config,
            final(self).input_symbol == old(self).input_symbol,
            final(self).pending_candle_symbol == old(self).pending_candle_symbol,
            final(self).error == old(self).error,
    {
        self.current_index = (self.current_index + 1) % self.config.symbols.len();
    }

    /// Whether quotes are due after `elapsed_secs` whole seconds since they
    /// were last asked for: at the set refresh period, but no more often
    /// than every 3 seconds.
    pub fn quote_refresh_due(&self, elapsed_secs: u64) -> (due: bool)
        ensures
            due == (elapsed_secs >= if self.config.quote_refresh_secs > 3 {
                self.config.quote_refresh_secs
            } else {
                3
            }),
    {
        let period = if self.config.quote_refresh_secs > 3 { self.config.quote_refresh_secs } else { 3 };
        elapsed_secs >= period
    }

    /// Whether to move on to the next symbol after `elapsed_secs` whole
    /// seconds on this one: at the set interval, but no sooner than after 2
    /// seconds, and never with an empty list.
    pub fn rotation_due(&self, elapsed_secs: u64) -> (due: bool)
        ensures
            due == (self.config.symbols@.len() > 0 && elapsed_secs >= if self.config.rotation_interval_secs > 2 {
                self.config.rotation_interval_secs
            } else {
                2
            }),
    {
        let period = if self.config.rotation_interval_secs > 2 { self.config.rotation_interval_secs } else { 2 };
        self.config.symbols.len() > 0 && elapsed_secs >= period
    }

    /// Whether to ask for the chart of `symbol`, which is not asked for when
    /// it is already being fetched or is already at hand (`cached`). When it
    /// is asked for, it becomes the one being fetched.
    pub fn want_candles(&mut self, symbol: String, cached: bool) -> (ask: bool)
        ensures
            ask == !(cached || (old(self).pending_candle_symbol matches Some(p) && p@ == symbol@)),
            ask ==> final(self).pending_candle_symbol == Some(symbol),
            !ask ==> *final(self) == *old(self),
            final(self).config == old(self).config,
            final(self).current_index == old(self).current_index,
            final(self).input_symbol == old(self).input_symbol,
            final(self).error == old(self).error,
    {
        let fetching = match &self.pending_candle_symbol {
            Some(p) => *p == symbol,
            None => false,
        };
        if fetching || cached {
            return false;
        }
        self.pending_candle_symbol = Some(symbol);
        true
    }

    /// Takes in how a quote request ended: a success clears the error, a
    /// failure shows its message.
    pub fn record_quotes(&mut self, outcome: Result<(), String>)
        ensures
            final(self).error == match outcome {
                Ok(()) => None,
                Err(e) => Some(e),
            },
            final(self).config == old(self).config,
            final(self).current_index == old(self).current_index,
            final(self).input_symbol == old(self).input_symbol,
            final(self).pending_candle_symbol == old(self).pending_candle_symbol,
    {
        self.error = match outcome {
            Ok(()) => None,
            Err(e) => Some(e),
        };
    }

    /// Takes in how a chart request ended: nothing is being fetched any
    /// more; a success clears the error, a failure shows its message.
    pub fn record_candles(&mut self, outcome: Result<(), String>)
        ensures
            final(self).pending_candle_symbol is None,
            final(self).error == match outcome {
                Ok(()) => None,
                Err(e) => Some(e),
            },
            final(self).config == old(self).config,
            final(self).current_index == old(self).current_index,
            final(self).input_symbol == old(self).input_symbol,
    {
        self.pending_candle_symbol = None;
        self.record_quotes(outcome);
    }
}

} // verus!
