//! Market snapshot data: per-token price info, the snapshot mapping,
//! and the transform from the fetched wire shape to the mapping.
//!
//! Prices are fixed-point integers with `PRICE_SCALE` units to one, so
//! every comparison and percent computation downstream is exact. The
//! fetch itself (HTTP and JSON) lives outside; this module receives the
//! already-shaped plain records and does the arithmetic and keying.

use vstd::prelude::*;
use crate::decimal::all_digits;
use crate::decimal::dec_value;
use crate::decimal::lemma_dec_value_bound;
use crate::decimal::parse_u64_digits;
use crate::decimal::pow10;
use crate::decimal::pow10_u64;
use crate::decimal::spec_parse_signed;
use crate::decimal::spec_parse_u64_digits;
use crate::decimal::char_is_digit;
use crate::decimal::char_digit_val;
use crate::decimal::lemma_dec_value_push;
use crate::text::split_chars;
use crate::text::split_on_char;
use crate::text::str_eq;
use crate::text::upper_chars;
use crate::text::upper_str;
use crate::decimal::parse_i64_str;
use crate::decimal::spec_parse_i64;

verus! {

/// Fixed-point scale for prices: this many units make one currency
/// unit (eight decimal digits).
pub const PRICE_SCALE: u64 = 100_000_000;

/// Price and metadata of one token from one fetch cycle, immutable
/// once built. Prices are fixed point with `PRICE_SCALE` units to one;
/// the market cap is in whole units.
#[derive(Debug, Clone)]
pub struct TokenInfo {
    pub name: String,
    pub full_name: Option<String>,
    pub price: u64,
    pub price_prev_24h: u64,
    pub pair_number: Option<u16>,
    pub market_cap: u64,
}

/// The whole-number market cap closest to `price * supply`, both fixed
/// point, saturating at the widest representable value.
pub open spec fn spec_market_cap(price: u64, supply: u64) -> u64 {
    let exact = (price * supply + 5_000_000_000_000_000) / 10_000_000_000_000_000;
    if exact > u64::MAX {
        u64::MAX
    } else {
        exact as u64
    }
}

/// Rounded product of two fixed-point values, saturating.
pub fn market_cap_of(price: u64, supply: u64) -> (r: u64)
    ensures
        r == spec_market_cap(price, supply),
{
    proof {
        assert((price as int) * (supply as int) <= (u64::MAX as int) * (u64::MAX as int))
            by (nonlinear_arith)
            requires
                0 <= price <= u64::MAX,
                0 <= supply <= u64::MAX,
        ;
    }
    let wide = (price as u128) * (supply as u128);
    let rounded = (wide + 5_000_000_000_000_000) / 10_000_000_000_000_000;
    if rounded > u64::MAX as u128 {
        u64::MAX
    } else {
        rounded as u64
    }
}

/// The fixed-point value a decimal price text denotes: digits with at
/// most one point, read to eight fractional digits (further digits cut
/// off), or nothing for any other shape.
pub open spec fn spec_price_value(cs: Seq<char>) -> Option<int> {
    let parts = split_chars(cs, '.');
    if parts.len() == 1 {
        if cs.len() >= 1 && all_digits(cs) {
            Some(dec_value(cs) * PRICE_SCALE)
        } else {
            None
        }
    } else if parts.len() == 2 {
        let ip = parts[0];
        let fp = parts[1];
        if (ip.len() > 0 || fp.len() > 0) && all_digits(ip) && all_digits(fp) {
            let k = if fp.len() > 8 {
                8nat
            } else {
                fp.len()
            };
            Some(dec_value(ip) * PRICE_SCALE + dec_value(fp.take(k as int)) * pow10((8 - k) as nat))
        } else {
            None
        }
    } else {
        None
    }
}

/// As `spec_price_value`, refusing values above `u64`.
pub open spec fn spec_parse_price(cs: Seq<char>) -> Option<u64> {
    match spec_price_value(cs) {
        Some(v) => if v <= u64::MAX {
            Some(v as u64)
        } else {
            None
        },
        None => None,
    }
}

/// Parses decimal price text into a fixed-point value.
pub fn parse_price(s: &str) -> (r: Option<u64>)
    ensures
        r == spec_parse_price(s@),
{
    let parts = split_on_char(s, '.');
    let ghost pv = parts@.map_values(|p: String| p@);
    if parts.len() == 1 {
        proof {
            crate::text::lemma_find_last_sep(s@, '.');
            let j = crate::text::find_last_sep(s@, '.');
            if j >= 0 {
                crate::text::lemma_split_chars_len(s@.take(j), '.');
                assert(split_chars(s@, '.').len() >= 2);
            }
            assert(pv.len() == 1);
            assert(split_chars(s@, '.') == seq![s@]);
            assert(pv[0] == s@);
        }
        match parse_u64_digits(parts[0].as_str()) {
            Some(v) => {
                let wide = (v as u128) * (PRICE_SCALE as u128);
                if wide > u64::MAX as u128 {
                    None
                } else {
                    Some(wide as u64)
                }
            },
            None => {
                proof {
                    if s@.len() >= 1 && all_digits(s@) {
                        assert(dec_value(s@) > u64::MAX);
                        assert(dec_value(s@) * (PRICE_SCALE as nat) >= dec_value(s@))
                            by (nonlinear_arith);
                    }
                }
                None
            },
        }
    } else if parts.len() == 2 {
        let ghost ip = pv[0];
        let ghost fp = pv[1];
        let int_part = match parse_u64_or_empty(parts[0].as_str()) {
            Some(v) => v,
            None => {
                proof {
                    if ip.len() >= 1 && all_digits(ip) {
                        assert(dec_value(ip) > u64::MAX);
                        assert(dec_value(ip) * (PRICE_SCALE as nat) >= dec_value(ip))
                            by (nonlinear_arith);
                    }
                }
                return None;
            },
        };
        let fl = parts[1].unicode_len();
        if parts[0].unicode_len() == 0 && fl == 0 {
            return None;
        }
        let k: usize = if fl > 8 {
            8
        } else {
            fl
        };
        let frac = match frac_value(parts[1].as_str(), k) {
            Some(v) => v,
            None => {
                return None;
            },
        };
        let wide = (int_part as u128) * (PRICE_SCALE as u128) + (frac as u128);
        if wide > u64::MAX as u128 {
            None
        } else {
            Some(wide as u64)
        }
    } else {
        None
    }
}

/// `dec_value(ds) * pow10(e)` stays under `pow10(len + e)`.
proof fn lemma_pow10_mul_bound(len: nat, e: nat)
    ensures
        pow10(len) * pow10(e) == pow10(len + e),
    decreases len,
{
    if len > 0 {
        lemma_pow10_mul_bound((len - 1) as nat, e);
        let a = pow10((len - 1) as nat);
        let b = pow10(e);
        assert(pow10(len) == 10 * a);
        assert((10 * a) * b == 10 * (a * b)) by (nonlinear_arith);
        assert(pow10(len + e) == 10 * pow10((len + e - 1) as nat));
        assert(((len - 1) as nat) + e == (len + e - 1) as nat);
        assert(pow10((len + e - 1) as nat) == a * b);
        assert(pow10(len) * pow10(e) == (10 * a) * b);
        assert(pow10(len) * pow10(e) == 10 * (a * b));
        assert(pow10(len) * pow10(e) == pow10(len + e));
    } else {
        assert(pow10(len) == 1);
        assert(len + e == e);
        assert(1 * pow10(e) == pow10(e)) by (nonlinear_arith);
    }
}


/// The integer part's value: empty counts as zero.
fn parse_u64_or_empty(s: &str) -> (r: Option<u64>)
    ensures
        match r {
            Some(v) => (s@.len() == 0 && v == 0) || spec_parse_u64_digits(s@) == Some(v),
            None => s@.len() > 0 && spec_parse_u64_digits(s@) is None,
        },
{
    if s.unicode_len() == 0 {
        Some(0)
    } else {
        parse_u64_digits(s)
    }
}

/// The value of the first `k` fractional digits, scaled to eight
/// places; all characters must be digits.
fn frac_value(s: &str, k: usize) -> (r: Option<u64>)
    requires
        k <= 8,
        k <= s@.len(),
        k == 8 || s@.len() == k,
    ensures
        match r {
            Some(v) => all_digits(s@) && v == dec_value(s@.take(k as int)) * pow10((8 - k) as nat),
            None => !all_digits(s@),
        },
{
    let n = s.unicode_len();
    let mut i: usize = 0;
    let mut acc: u64 = 0;
    while i < n
        invariant
            i <= n,
            k <= 8,
            k <= n,
            n == s@.len(),
            all_digits(s@.subrange(0, i as int)),
            i <= k ==> acc == dec_value(s@.subrange(0, if i < k {
                i as int
            } else {
                k as int
            })),
            i > k ==> acc == dec_value(s@.subrange(0, k as int)),
            acc < 100_000_000,
        decreases n - i,
    {
        let c = s.get_char(i);
        if !char_is_digit(c) {
            proof {
                assert(s@[i as int] == c);
                assert(!all_digits(s@));
            }
            return None;
        }
        proof {
            assert(s@.subrange(0, i + 1 as int) =~= s@.subrange(0, i as int).push(c));
            if i < k {
                lemma_dec_value_push(s@.subrange(0, i as int), c);
                let sub = s@.subrange(0, i as int);
                assert(all_digits(sub.push(c))) by {
                    assert(forall|m: int|
                        0 <= m < i ==> sub.push(c)[m] == #[trigger] sub[m]);
                }
                lemma_dec_value_bound(sub.push(c));
                lemma_pow10_le(((i + 1) as nat), 8nat);
                crate::decimal::lemma_pow10_table();
            }
        }
        if i < k {
            let d = char_digit_val(c);
            acc = acc * 10 + d as u64;
        } else {
            proof {
                if i == k {
                } else {
                }
                assert(s@.subrange(0, if (i + 1) < k {
                    (i + 1) as int
                } else {
                    k as int
                }) =~= s@.subrange(0, k as int));
            }
        }
        i = i + 1;
    }
    proof {
        assert(s@.subrange(0, n as int) =~= s@);
        if n <= k {
            assert(s@.subrange(0, k as int) =~= s@.take(k as int));
        }
        assert(s@.subrange(0, k as int) =~= s@.take(k as int));
    }
    let scale = pow10_u64(8 - k);
    proof {
        let fpre = s@.take(k as int);
        assert(all_digits(fpre)) by {
            assert(forall|m: int| 0 <= m < k ==> fpre[m] == #[trigger] s@[m]);
        }
        lemma_dec_value_bound(fpre);
        lemma_pow10_pos((8 - k) as nat);
        lemma_pow10_mul_bound(fpre.len(), (8 - k) as nat);
        crate::decimal::lemma_pow10_table();
        assert(dec_value(fpre) * pow10((8 - k) as nat) < pow10(k as nat) * pow10((8 - k) as nat))
            by (nonlinear_arith)
            requires
                dec_value(fpre) < pow10(k as nat),
                pow10((8 - k) as nat) >= 1,
        ;
    }
    Some(acc * scale)
}

proof fn lemma_pow10_pos(n: nat)
    ensures
        pow10(n) >= 1,
    decreases n,
{
    if n > 0 {
        lemma_pow10_pos((n - 1) as nat);
    }
}

proof fn lemma_pow10_le(a: nat, b: nat)
    requires
        a <= b,
    ensures
        pow10(a) <= pow10(b),
    decreases b,
{
    if a < b {
        lemma_pow10_le(a, (b - 1) as nat);
        lemma_pow10_pos((b - 1) as nat);
    }
}

/// The pair number of a coin name: the canonical pair keeps the base
/// number, any other coin name appends its digits after the first
/// character to it. A shape that denotes no small number yields
/// nothing (where the feed is well-formed this does not happen).
pub open spec fn spec_pair_no(coin: Seq<char>) -> Option<u16> {
    if coin == "PURR/USDC"@ {
        Some(10_000u16)
    } else if coin.len() >= 1 {
        match spec_parse_signed(coin.skip(1)) {
            Some(v) => if 0 <= v && 10_000 + v <= u16::MAX {
                Some((10_000 + v) as u16)
            } else {
                None
            },
            None => None,
        }
    } else {
        None
    }
}

/// The current market snapshot: token infos keyed by uppercase symbol,
/// keys pairwise distinct. Wholly replaced on refresh, never patched.
#[derive(Debug)]
pub struct TokenMap {
    entries: Vec<(String, TokenInfo)>,
}

impl TokenMap {
    pub closed spec fn wf(self) -> bool {
        forall|i: int, j: int|
            0 <= i < j < self.entries@.len() ==> (#[trigger] self.entries@[i]).0@ != (
            #[trigger] self.entries@[j]).0@
    }

    pub closed spec fn entry_count(self) -> nat {
        self.entries@.len()
    }

    pub closed spec fn key_at(self, i: int) -> Seq<char> {
        self.entries@[i].0@
    }

    pub closed spec fn info_at(self, i: int) -> TokenInfo {
        self.entries@[i].1
    }

    pub closed spec fn contains_symbol(self, symbol: Seq<char>) -> bool {
        exists|i: int| 0 <= i < self.entries@.len() && (#[trigger] self.entries@[i]).0@ == symbol
    }

    pub closed spec fn info_of(self, symbol: Seq<char>) -> TokenInfo {
        let i = choose|i: int|
            0 <= i < self.entries@.len() && (#[trigger] self.entries@[i]).0@ == symbol;
        self.entries@[i].1
    }

    proof fn lemma_info_at(self, i: int)
        requires
            self.wf(),
            0 <= i < self.entries@.len(),
        ensures
            self.contains_symbol(self.entries@[i].0@),
            self.info_of(self.entries@[i].0@) == self.entries@[i].1,
    {
        let symbol = self.entries@[i].0@;
        assert(self.contains_symbol(symbol));
        let j = choose|j: int|
            0 <= j < self.entries@.len() && (#[trigger] self.entries@[j]).0@ == symbol;
        if i != j {
            if i < j {
                assert(self.entries@[i].0@ != self.entries@[j].0@);
            } else {
                assert(self.entries@[j].0@ != self.entries@[i].0@);
            }
        }
    }

    /// The indexed entry's symbol and info are what the spec views say.
    pub proof fn lemma_entry_lookup(self, i: int)
        requires
            self.wf(),
            0 <= i < self.entry_count(),
        ensures
            self.contains_symbol(self.key_at(i)),
            self.info_of(self.key_at(i)) == self.info_at(i),
    {
        self.lemma_info_at(i);
    }

    /// Distinct entries carry distinct symbols.
    pub proof fn lemma_keys_distinct(self)
        requires
            self.wf(),
        ensures
            forall|i: int, j: int|
                0 <= i < j < self.entry_count() ==> #[trigger] self.key_at(i)
                    != #[trigger] self.key_at(j),
    {
    }

    /// An empty snapshot: no symbol is present.
    pub fn new() -> (r: Self)
        ensures
            r.wf(),
            r.entry_count() == 0,
            forall|symbol: Seq<char>| !r.contains_symbol(symbol),
    {
        TokenMap { entries: Vec::new() }
    }

    pub fn len(&self) -> (n: usize)
        ensures
            n == self.entry_count(),
    {
        self.entries.len()
    }

    pub fn symbol_at(&self, i: usize) -> (r: &String)
        requires
            i < self.entry_count(),
        ensures
            r@ == self.key_at(i as int),
    {
        &self.entries[i].0
    }

    pub fn info_at_idx(&self, i: usize) -> (r: &TokenInfo)
        requires
            i < self.entry_count(),
        ensures
            *r == self.info_at(i as int),
    {
        &self.entries[i].1
    }

    fn find_index(&self, symbol: &str) -> (r: Option<usize>)
        ensures
            match r {
                Some(i) => i < self.entries@.len() && self.entries@[i as int].0@ == symbol@,
                None => !self.contains_symbol(symbol@),
            },
    {
        let mut idx: usize = 0;
        while idx < self.entries.len()
            invariant
                idx <= self.entries@.len(),
                forall|k: int| 0 <= k < idx ==> (#[trigger] self.entries@[k]).0@ != symbol@,
            decreases self.entries@.len() - idx,
        {
            if str_eq(self.entries[idx].0.as_str(), symbol) {
                return Some(idx);
            }
            idx = idx + 1;
        }
        None
    }

    /// The info recorded for a symbol, if the snapshot has the pair.
    pub fn get(&self, symbol: &str) -> (r: Option<&TokenInfo>)
        requires
            self.wf(),
        ensures
            match r {
                Some(info) => self.contains_symbol(symbol@) && *info == self.info_of(symbol@),
                None => !self.contains_symbol(symbol@),
            },
    {
        match self.find_index(symbol) {
            Some(i) => {
                proof {
                    self.lemma_info_at(i as int);
                }
                Some(&self.entries[i].1)
            },
            None => None,
        }
    }

    /// Records the info under the symbol, replacing any previous entry.
    pub fn insert(&mut self, symbol: String, info: TokenInfo)
        requires
            old(self).wf(),
        ensures
            final(self).wf(),
            final(self).contains_symbol(symbol@),
            final(self).info_of(symbol@) == info,
            forall|other: Seq<char>| #![trigger final(self).contains_symbol(other)]
                other != symbol@
                    ==> final(self).contains_symbol(other) == old(self).contains_symbol(other)
                        && (old(self).contains_symbol(other)
                            ==> final(self).info_of(other) == old(self).info_of(other)),
    {
        let ghost prev = *self;
        match self.find_index(symbol.as_str()) {
            Some(i) => {
                self.entries[i] = (symbol, info);
                proof {
                    let sv = self.entries@[i as int].0@;
                    assert forall|p: int, q: int|
                        0 <= p < q < self.entries@.len() implies (#[trigger] self.entries@[p]).0@
                        != (#[trigger] self.entries@[q]).0@ by {
                        assert(prev.entries@[p].0@ == self.entries@[p].0@);
                        assert(prev.entries@[q].0@ == self.entries@[q].0@);
                    }
                    self.lemma_info_at(i as int);
                    assert forall|other: Seq<char>| other != sv implies self.contains_symbol(other)
                        == prev.contains_symbol(other) && (prev.contains_symbol(other)
                        ==> self.info_of(other) == prev.info_of(other)) by {
                        if prev.contains_symbol(other) {
                            let j = choose|j: int|
                                0 <= j < prev.entries@.len() && (#[trigger] prev.entries@[j]).0@
                                    == other;
                            assert(self.entries@[j].0@ == other);
                            self.lemma_info_at(j);
                            prev.lemma_info_at(j);
                        } else if self.contains_symbol(other) {
                            let j = choose|j: int|
                                0 <= j < self.entries@.len() && (#[trigger] self.entries@[j]).0@
                                    == other;
                            assert(prev.entries@[j].0@ == other);
                        }
                    }
                }
            },
            None => {
                self.entries.push((symbol, info));
                proof {
                    let n = prev.entries@.len() as int;
                    let sv = self.entries@[n].0@;
                    assert forall|p: int, q: int|
                        0 <= p < q < self.entries@.len() implies (#[trigger] self.entries@[p]).0@
                        != (#[trigger] self.entries@[q]).0@ by {
                        if q < n {
                            assert(prev.entries@[p].0@ != prev.entries@[q].0@);
                        } else {
                            assert(prev.entries@[p].0@ == self.entries@[p].0@);
                            assert(!prev.contains_symbol(sv));
                        }
                    }
                    self.lemma_info_at(n);
                    assert forall|other: Seq<char>| other != sv implies self.contains_symbol(other)
                        == prev.contains_symbol(other) && (prev.contains_symbol(other)
                        ==> self.info_of(other) == prev.info_of(other)) by {
                        if prev.contains_symbol(other) {
                            let j = choose|j: int|
                                0 <= j < prev.entries@.len() && (#[trigger] prev.entries@[j]).0@
                                    == other;
                            assert(self.entries@[j].0@ == other);
                            self.lemma_info_at(j);
                            prev.lemma_info_at(j);
                        } else if self.contains_symbol(other) {
                            let j = choose|j: int|
                                0 <= j < self.entries@.len() && (#[trigger] self.entries@[j]).0@
                                    == other;
                            if j < n {
                                assert(prev.entries@[j].0@ == other);
                            }
                        }
                    }
                }
            },
        }
    }
}

/// One market row as fetched: decimal numbers still as text.
#[derive(Debug, Clone)]
pub struct MarketDataItem {
    pub prev_day_px: String,
    pub day_ntl_vlm: String,
    pub mark_px: String,
    pub mid_px: Option<String>,
    pub circulating_supply: String,
    pub coin: String,
}

/// The fetched metadata: the pair universe and the token directory.
#[derive(Debug)]
pub struct ResponseMeta {
    pub universe: Vec<UniverseItem>,
    pub tokens: Vec<Token>,
}

/// One token directory row as fetched.
#[derive(Debug, Clone)]
pub struct Token {
    pub name: String,
    pub sz_decimals: u32,
    pub wei_decimals: u32,
    pub index: usize,
    pub token_id: String,
    pub is_canonical: bool,
    pub evm_contract: Option<String>,
    pub full_name: Option<String>,
}

/// One pair universe row as fetched.
#[derive(Debug, Clone)]
pub struct UniverseItem {
    pub tokens: Vec<i32>,
    pub name: String,
    pub index: i32,
    pub is_canonical: bool,
}

/// Why the fetched data could not be shaped into a snapshot; any of
/// these aborts the whole refresh, as a failed fetch would.
#[derive(Debug, Clone, Copy, PartialEq, Eq, Structural)]
pub enum MarketParseError {
    /// A mark price did not read as a decimal number.
    BadPrice,
    /// A previous-day price did not read as a decimal number.
    BadPreviousPrice,
    /// A circulating supply did not read as a decimal number.
    BadSupply,
    /// A pair listed no nonzero token index.
    MissingPairIndex,
}

/// The first pair in the universe bearing the coin name.
pub open spec fn spec_find_pair(universe: Seq<UniverseItem>, coin: Seq<char>) -> Option<
    UniverseItem,
>
    decreases universe.len(),
{
    if universe.len() == 0 {
        None
    } else if universe[0].name@ == coin {
        Some(universe[0])
    } else {
        spec_find_pair(universe.drop_first(), coin)
    }
}

/// The first nonzero index in a pair's token list.
pub open spec fn spec_first_nonzero(ts: Seq<i32>) -> Option<i32>
    decreases ts.len(),
{
    if ts.len() == 0 {
        None
    } else if ts[0] != 0 {
        Some(ts[0])
    } else {
        spec_first_nonzero(ts.drop_first())
    }
}

/// The last directory row carrying the index (a later row shadows an
/// earlier one).
pub open spec fn spec_token_for_index(tokens: Seq<Token>, idx: int) -> Option<Token>
    decreases tokens.len(),
{
    if tokens.len() == 0 {
        None
    } else if tokens.last().index as int == idx {
        Some(tokens.last())
    } else {
        spec_token_for_index(tokens.drop_last(), idx)
    }
}

/// Whether shaping stops on this market row: its pair is known but
/// names no usable token index, or one of its numbers does not read.
pub open spec fn spec_item_fails(
    universe: Seq<UniverseItem>,
    tokens: Seq<Token>,
    item: MarketDataItem,
) -> bool {
    match spec_find_pair(universe, item.coin@) {
        None => false,
        Some(pair) => match spec_first_nonzero(pair.tokens@) {
            None => true,
            Some(idx) => match spec_token_for_index(tokens, idx as int) {
                None => false,
                Some(t) => spec_parse_price(item.mark_px@) is None || spec_parse_price(
                    item.prev_day_px@,
                ) is None || spec_parse_price(item.circulating_supply@) is None,
            },
        },
    }
}

/// What one market row contributes to the mapping: the uppercased
/// token name and its shaped info — or nothing, when the row's pair
/// or token is unknown (the row is left out) or a number does not
/// read (the refresh aborts before any mapping is returned).
pub open spec fn spec_row_entry(
    universe: Seq<UniverseItem>,
    tokens: Seq<Token>,
    item: MarketDataItem,
) -> Option<(Seq<char>, TokenInfo)> {
    match spec_find_pair(universe, item.coin@) {
        None => None,
        Some(pair) => match spec_first_nonzero(pair.tokens@) {
            None => None,
            Some(idx) => match spec_token_for_index(tokens, idx as int) {
                None => None,
                Some(t) => match (
                    spec_parse_price(item.mark_px@),
                    spec_parse_price(item.prev_day_px@),
                    spec_parse_price(item.circulating_supply@),
                ) {
                    (Some(price), Some(prev), Some(supply)) => Some(
                        (
                            upper_chars(t.name@),
                            TokenInfo {
                                name: t.name,
                                full_name: t.full_name,
                                price: price,
                                price_prev_24h: prev,
                                pair_number: spec_pair_no(item.coin@),
                                market_cap: spec_market_cap(price, supply),
                            },
                        ),
                    ),
                    _ => None,
                },
            },
        },
    }
}

/// The mapping entry for `key` once the rows are applied in order: a
/// later row's contribution shadows an earlier one's, and a key no
/// row contributes is absent.
pub open spec fn spec_mapping_entry(
    universe: Seq<UniverseItem>,
    tokens: Seq<Token>,
    market: Seq<MarketDataItem>,
    key: Seq<char>,
) -> Option<TokenInfo>
    decreases market.len(),
{
    if market.len() == 0 {
        None
    } else {
        match spec_row_entry(universe, tokens, market.last()) {
            Some(e) => if e.0 == key {
                Some(e.1)
            } else {
                spec_mapping_entry(universe, tokens, market.drop_last(), key)
            },
            None => spec_mapping_entry(universe, tokens, market.drop_last(), key),
        }
    }
}

fn find_pair<'a>(universe: &'a Vec<UniverseItem>, coin: &str) -> (r: Option<&'a UniverseItem>)
    ensures
        match r {
            Some(u) => spec_find_pair(universe@, coin@) == Some(*u),
            None => spec_find_pair(universe@, coin@) is None,
        },
{
    let mut k: usize = 0;
    proof {
        assert(universe@.skip(0) =~= universe@);
    }
    while k < universe.len()
        invariant
            k <= universe@.len(),
            spec_find_pair(universe@, coin@) == spec_find_pair(universe@.skip(k as int), coin@),
        decreases universe@.len() - k,
    {
        if str_eq(universe[k].name.as_str(), coin) {
            proof {
                assert(universe@.skip(k as int)[0] == universe@[k as int]);
            }
            return Some(&universe[k]);
        }
        proof {
            assert(universe@.skip(k as int).drop_first() =~= universe@.skip(k + 1 as int));
        }
        k = k + 1;
    }
    None
}

fn first_nonzero(ts: &Vec<i32>) -> (r: Option<i32>)
    ensures
        r == spec_first_nonzero(ts@),
{
    let mut k: usize = 0;
    proof {
        assert(ts@.skip(0) =~= ts@);
    }
    while k < ts.len()
        invariant
            k <= ts@.len(),
            spec_first_nonzero(ts@) == spec_first_nonzero(ts@.skip(k as int)),
        decreases ts@.len() - k,
    {
        if ts[k] != 0 {
            proof {
                assert(ts@.skip(k as int)[0] == ts@[k as int]);
            }
            return Some(ts[k]);
        }
        proof {
            assert(ts@.skip(k as int)[0] == ts@[k as int]);
            assert(ts@.skip(k as int).drop_first() =~= ts@.skip(k + 1 as int));
        }
        k = k + 1;
    }
    None
}

fn token_for_index<'a>(tokens: &'a Vec<Token>, idx: i32) -> (r: Option<&'a Token>)
    ensures
        match r {
            Some(t) => spec_token_for_index(tokens@, idx as int) == Some(*t),
            None => spec_token_for_index(tokens@, idx as int) is None,
        },
{
    let mut k: usize = tokens.len();
    proof {
        assert(tokens@.take(tokens@.len() as int) =~= tokens@);
    }
    while k > 0
        invariant
            k <= tokens@.len(),
            spec_token_for_index(tokens@, idx as int) == spec_token_for_index(
                tokens@.take(k as int),
                idx as int,
            ),
        decreases k,
    {
        proof {
            assert(tokens@.take(k as int).last() == tokens@[k - 1]);
        }
        if (tokens[k - 1].index as i128) == (idx as i128) {
            return Some(&tokens[k - 1]);
        }
        proof {
            assert(tokens@.take(k as int).drop_last() =~= tokens@.take(k - 1));
        }
        k = k - 1;
    }
    None
}

/// Shapes the fetched metadata and market rows into the snapshot
/// mapping (keyed by uppercase token name) and the full symbol list.
/// A row whose pair or token is unknown is left out; a row with a
/// known pair but no usable index, or with unreadable numbers, aborts
/// the refresh.
pub fn build_token_mapping(meta: &ResponseMeta, market: &Vec<MarketDataItem>) -> (r: Result<
    (TokenMap, Vec<String>),
    MarketParseError,
>)
    ensures
        match r {
            Ok(p) => p.0.wf() && p.1@.map_values(|s: String| s@) == meta.tokens@.map_values(
                |t: Token| upper_chars(t.name@),
            ) && !(exists|i: int|
                0 <= i < market@.len() && spec_item_fails(
                    meta.universe@,
                    meta.tokens@,
                    #[trigger] market@[i],
                )) && (forall|key: Seq<char>|
                #![trigger p.0.contains_symbol(key)]
                match spec_mapping_entry(meta.universe@, meta.tokens@, market@, key) {
                    Some(info) => p.0.contains_symbol(key) && p.0.info_of(key) == info,
                    None => !p.0.contains_symbol(key),
                }),
            Err(e) => exists|i: int|
                0 <= i < market@.len() && spec_item_fails(
                    meta.universe@,
                    meta.tokens@,
                    #[trigger] market@[i],
                ),
        },
{
    let mut token_array: Vec<String> = Vec::new();
    let mut i: usize = 0;
    proof {
        assert(token_array@.map_values(|s: String| s@) =~= meta.tokens@.take(0).map_values(
            |t: Token| upper_chars(t.name@),
        ));
    }
    while i < meta.tokens.len()
        invariant
            i <= meta.tokens@.len(),
            token_array@.map_values(|s: String| s@) == meta.tokens@.take(i as int).map_values(
                |t: Token| upper_chars(t.name@),
            ),
        decreases meta.tokens@.len() - i,
    {
        let ghost old_arr = token_array@;
        token_array.push(upper_str(meta.tokens[i].name.as_str()));
        proof {
            assert(token_array@.map_values(|s: String| s@) =~= old_arr.map_values(
                |s: String| s@,
            ).push(upper_chars(meta.tokens@[i as int].name@)));
            assert(meta.tokens@.take(i + 1 as int) =~= meta.tokens@.take(i as int).push(
                meta.tokens@[i as int],
            ));
            assert(meta.tokens@.take(i + 1 as int).map_values(|t: Token| upper_chars(t.name@))
                =~= meta.tokens@.take(i as int).map_values(|t: Token| upper_chars(t.name@)).push(
                upper_chars(meta.tokens@[i as int].name@),
            ));
        }
        i = i + 1;
    }
    proof {
        assert(meta.tokens@.take(meta.tokens@.len() as int) =~= meta.tokens@);
    }
    let mut mapping = TokenMap::new();
    let mut j: usize = 0;
    proof {
        assert forall|key: Seq<char>|
            #![trigger mapping.contains_symbol(key)]
            (match spec_mapping_entry(meta.universe@, meta.tokens@, market@.take(0), key) {
                Some(info) => mapping.contains_symbol(key) && mapping.info_of(key) == info,
                None => !mapping.contains_symbol(key),
            }) by {
            assert(market@.take(0).len() == 0);
        }
    }
    while j < market.len()
        invariant
            j <= market@.len(),
            mapping.wf(),
            forall|k: int|
                0 <= k < j ==> !spec_item_fails(meta.universe@, meta.tokens@, #[trigger] market@[k]),
            forall|key: Seq<char>|
                #![trigger mapping.contains_symbol(key)]
                match spec_mapping_entry(
                    meta.universe@,
                    meta.tokens@,
                    market@.take(j as int),
                    key,
                ) {
                    Some(info) => mapping.contains_symbol(key) && mapping.info_of(key) == info,
                    None => !mapping.contains_symbol(key),
                },
        decreases market@.len() - j,
    {
        proof {
            assert(market@.take(j + 1 as int).drop_last() =~= market@.take(j as int));
            assert(market@.take(j + 1 as int).last() == market@[j as int]);
        }
        let item = &market[j];
        if let Some(pair) = find_pair(&meta.universe, item.coin.as_str()) {
            match first_nonzero(&pair.tokens) {
                None => {
                    return Err(MarketParseError::MissingPairIndex);
                },
                Some(idx) => {
                    if let Some(token_item) = token_for_index(&meta.tokens, idx) {
                        let price = match parse_price(item.mark_px.as_str()) {
                            Some(p) => p,
                            None => {
                                return Err(MarketParseError::BadPrice);
                            },
                        };
                        let price_prev_24h = match parse_price(item.prev_day_px.as_str()) {
                            Some(p) => p,
                            None => {
                                return Err(MarketParseError::BadPreviousPrice);
                            },
                        };
                        let supply = match parse_price(item.circulating_supply.as_str()) {
                            Some(p) => p,
                            None => {
                                return Err(MarketParseError::BadSupply);
                            },
                        };
                        let name_upper = upper_str(token_item.name.as_str());
                        let pair_number = transform_coin_to_pair_no(item.coin.as_str());
                        let full_name = match &token_item.full_name {
                            Some(s) => Some(s.clone()),
                            None => None,
                        };
                        let info = TokenInfo {
                            name: token_item.name.clone(),
                            full_name,
                            price,
                            price_prev_24h,
                            pair_number,
                            market_cap: market_cap_of(price, supply),
                        };
                        let ghost name_key = name_upper@;
                        let ghost row_info = info;
                        proof {
                            assert(full_name == token_item.full_name);
                            assert(spec_row_entry(
                                meta.universe@,
                                meta.tokens@,
                                market@[j as int],
                            ) == Some((name_key, row_info)));
                        }
                        let ghost pre_map = mapping;
                        mapping.insert(name_upper, info);
                        proof {
                            assert forall|key: Seq<char>|
                                #![trigger mapping.contains_symbol(key)]
                                (match spec_mapping_entry(
                                    meta.universe@,
                                    meta.tokens@,
                                    market@.take(j + 1 as int),
                                    key,
                                ) {
                                    Some(info2) => mapping.contains_symbol(key)
                                        && mapping.info_of(key) == info2,
                                    None => !mapping.contains_symbol(key),
                                }) by {
                                if key != name_key {
                                    assert(mapping.contains_symbol(key) == pre_map.contains_symbol(
                                        key,
                                    ));
                                }
                            }
                        }
                    } else {
                        proof {
                            assert(spec_row_entry(
                                meta.universe@,
                                meta.tokens@,
                                market@[j as int],
                            ) is None);
                        }
                    }
                },
            }
        } else {
            proof {
                assert(spec_row_entry(meta.universe@, meta.tokens@, market@[j as int]) is None);
            }
        }
        j = j + 1;
    }
    proof {
        assert(market@.take(market@.len() as int) =~= market@);
    }
    Ok((mapping, token_array))
}

pub fn transform_coin_to_pair_no(input: &str) -> (r: Option<u16>)
    ensures
        r == spec_pair_no(input@),
{
    if str_eq(input, "PURR/USDC") {
        return Some(10_000);
    }
    let n = input.unicode_len();
    if n == 0 {
        return None;
    }
    let tail = input.substring_char(1, n);
    match parse_i64_str(tail) {
        Some(v) => {
            proof {
                assert(tail@ =~= input@.skip(1));
            }
            if 0 <= v && v <= (u16::MAX as i64) - 10_000 {
                Some((10_000 + v) as u16)
            } else {
                None
            }
        },
        None => {
            proof {
                assert(tail@ =~= input@.skip(1));
                if spec_parse_signed(input@.skip(1)) is Some {
                    let v = spec_parse_signed(input@.skip(1)).unwrap();
                    assert(spec_parse_i64(tail@) is None);
                    assert(v > i64::MAX || v < i64::MIN);
                }
            }
            None
        },
    }
}

} // verus!
