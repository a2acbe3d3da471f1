//! The dependency-free replay text format for engine events: one event per line,
//! `#` starts a comment, fields are separated by whitespace.
//!
//! ```text
//! tick
//! trade <mint> <price_fp> <quote> <liquidity> <signed_base> <buyer> <age_slots>
//! narr <mint> <prior_active> <new_mentions>
//! social <mint> <quality_bp>
//! wallet <mint> <followable 0|1> <size>
//! confirm <mint> <virtual_sol> <real_sol>
//! migrate <mint> <slot>
//! tokenmeta <mint> <category> <taxonomy_version> <creator> <slot>
//! creator_init <mint> <initial_tokens> <total_supply> <slot>
//! creator_buy <mint> <tokens> <quote> <slot>
//! creator_sell <mint> <tokens> <quote> <slot>
//! creator_link <mint> <cluster> <tokens> <slot>
//! ```
//!
//! A mint is 64 hexadecimal digits; integers are decimal `i64` (the price a
//! decimal `i128`); negative unsigned fields read as zero. The first malformed
//! line stops the parse and is reported with its one-based line number.

use vstd::prelude::*;

use crate::event::{AppEvent, CreatorActionKind};

verus! {

// ---------------------------------------------------------------------------
// Lines, comments and fields
// ---------------------------------------------------------------------------

/// Whether `c` is whitespace (the Unicode `White_Space` property).
pub open spec fn is_ws(c: char) -> bool {
    ||| '\t' <= c <= '\r'
    ||| c == ' '
    ||| c == '\u{85}'
    ||| c == '\u{a0}'
    ||| c == '\u{1680}'
    ||| '\u{2000}' <= c <= '\u{200a}'
    ||| c == '\u{2028}'
    ||| c == '\u{2029}'
    ||| c == '\u{202f}'
    ||| c == '\u{205f}'
    ||| c == '\u{3000}'
}

/// The index of the first character of `s` equal to `c`, or `s.len()`.
pub open spec fn find_char(s: Seq<char>, c: char) -> nat
    decreases s.len(),
{
    if s.len() == 0 {
        0
    } else if s[0] == c {
        0
    } else {
        1 + find_char(s.drop_first(), c)
    }
}

/// The index of the first whitespace character of `s`, or `s.len()`.
pub open spec fn find_ws(s: Seq<char>) -> nat
    decreases s.len(),
{
    if s.len() == 0 {
        0
    } else if is_ws(s[0]) {
        0
    } else {
        1 + find_ws(s.drop_first())
    }
}

proof fn lemma_find_char(s: Seq<char>, c: char, i: int)
    requires
        0 <= i <= s.len(),
        forall|k: int| 0 <= k < i ==> s[k] != c,
        i == s.len() || s[i] == c,
    ensures
        find_char(s, c) == i,
    decreases s.len(),
{
    if s.len() > 0 && i > 0 {
        lemma_find_char(s.drop_first(), c, i - 1);
    }
}

proof fn lemma_find_ws(s: Seq<char>, i: int)
    requires
        0 <= i <= s.len(),
        forall|k: int| 0 <= k < i ==> !is_ws(s[k]),
        i == s.len() || is_ws(s[i]),
    ensures
        find_ws(s) == i,
    decreases s.len(),
{
    if s.len() > 0 && i > 0 {
        lemma_find_ws(s.drop_first(), i - 1);
    }
}

/// A whitespace search never runs past the end.
pub proof fn lemma_find_ws_le(s: Seq<char>)
    ensures
        find_ws(s) <= s.len(),
    decreases s.len(),
{
    if s.len() > 0 {
        lemma_find_ws_le(s.drop_first());
    }
}

proof fn lemma_find_char_le(s: Seq<char>, c: char)
    ensures
        find_char(s, c) <= s.len(),
    decreases s.len(),
{
    if s.len() > 0 {
        lemma_find_char_le(s.drop_first(), c);
    }
}

/// The lines of `s`, split at every `'\n'`.
pub open spec fn split_lines(s: Seq<char>) -> Seq<Seq<char>>
    decreases s.len(),
{
    let i = find_char(s, '\n');
    if i >= s.len() {
        seq![s]
    } else {
        seq![s.take(i as int)] + split_lines(s.skip(i + 1 as int))
    }
}

/// The part of a line before its first `'#'`.
pub open spec fn before_hash(line: Seq<char>) -> Seq<char> {
    line.take(find_char(line, '#') as int)
}

/// The whitespace-separated fields of `s`.
pub open spec fn fields(s: Seq<char>) -> Seq<Seq<char>>
    decreases s.len(),
{
    if s.len() == 0 {
        Seq::empty()
    } else if is_ws(s[0]) {
        fields(s.drop_first())
    } else {
        let b = find_ws(s);
        proof {
            lemma_find_ws_le(s);
        }
        seq![s.take(b as int)] + fields(s.skip(b as int))
    }
}

/// The fields of line `line`, comment removed.
pub open spec fn line_fields(line: Seq<char>) -> Seq<Seq<char>> {
    fields(before_hash(line))
}

// ---------------------------------------------------------------------------
// Field values
// ---------------------------------------------------------------------------

/// Whether `c` is an ASCII decimal digit.
pub open spec fn is_digit(c: char) -> bool {
    '0' <= c <= '9'
}

/// The value of a run of decimal digits (most significant first).
pub open spec fn digits_value(d: Seq<char>) -> int
    decreases d.len(),
{
    if d.len() == 0 {
        0
    } else {
        digits_value(d.drop_last()) * 10 + (d.last() as int - '0' as int)
    }
}

/// Every character is a decimal digit.
pub open spec fn all_digits(d: Seq<char>) -> bool {
    forall|k: int| 0 <= k < d.len() ==> is_digit(#[trigger] d[k])
}

/// The integer a decimal field spells: an optional `+` or `-`, then at least one
/// digit and nothing else.
pub open spec fn spec_decimal(t: Seq<char>) -> Option<int> {
    let signed = t.len() > 0 && (t[0] == '-' || t[0] == '+');
    let d = if signed { t.drop_first() } else { t };
    if d.len() == 0 || !all_digits(d) {
        None
    } else if t[0] == '-' {
        Some(-digits_value(d))
    } else {
        Some(digits_value(d))
    }
}

/// The field as an `i64`, when it is one.
pub open spec fn spec_i64_field(t: Seq<char>) -> Option<i64> {
    match spec_decimal(t) {
        Some(v) => if i64::MIN <= v <= i64::MAX { Some(v as i64) } else { None },
        None => None,
    }
}

/// The field as an `i128`, when it is one.
pub open spec fn spec_i128_field(t: Seq<char>) -> Option<i128> {
    match spec_decimal(t) {
        Some(v) => if i128::MIN <= v <= i128::MAX { Some(v as i128) } else { None },
        None => None,
    }
}

/// The value of a hexadecimal digit (either case), or -1.
pub open spec fn hex_val(c: char) -> int {
    if '0' <= c <= '9' {
        c as int - '0' as int
    } else if 'a' <= c <= 'f' {
        c as int - 'a' as int + 10
    } else if 'A' <= c <= 'F' {
        c as int - 'A' as int + 10
    } else {
        -1
    }
}

/// Whether a field spells a mint: exactly 64 hexadecimal digits.
pub open spec fn is_mint_field(t: Seq<char>) -> bool {
    t.len() == 64 && forall|k: int| 0 <= k < 64 ==> hex_val(#[trigger] t[k]) >= 0
}

/// The 32 bytes a mint field spells, two digits per byte, high digit first.
pub open spec fn mint_bytes(t: Seq<char>) -> Seq<u8> {
    Seq::new(32, |i: int| (hex_val(t[2 * i]) * 16 + hex_val(t[2 * i + 1])) as u8)
}

/// A signed field read as an unsigned 64-bit quantity (negatives read as zero).
pub open spec fn clamp_u64(v: i64) -> u64 {
    if v < 0 { 0 } else { v as u64 }
}

/// A signed field read as an unsigned 32-bit quantity: negatives read as zero,
/// larger values keep their low 32 bits.
pub open spec fn clamp_u32(v: i64) -> u32 {
    if v < 0 { 0 } else { v as u32 }
}

// ---------------------------------------------------------------------------
// Lines
// ---------------------------------------------------------------------------

/// The keyword `tick`.
pub open spec fn kw_tick() -> Seq<char> {
    seq!['t', 'i', 'c', 'k']
}

/// The keyword `migrate`.
pub open spec fn kw_migrate() -> Seq<char> {
    seq!['m', 'i', 'g', 'r', 'a', 't', 'e']
}

/// The keyword `trade`.
pub open spec fn kw_trade() -> Seq<char> {
    seq!['t', 'r', 'a', 'd', 'e']
}

/// The keyword `narr`.
pub open spec fn kw_narr() -> Seq<char> {
    seq!['n', 'a', 'r', 'r']
}

/// The keyword `social`.
pub open spec fn kw_social() -> Seq<char> {
    seq!['s', 'o', 'c', 'i', 'a', 'l']
}

/// The keyword `wallet`.
pub open spec fn kw_wallet() -> Seq<char> {
    seq!['w', 'a', 'l', 'l', 'e', 't']
}

/// The keyword `confirm`.
pub open spec fn kw_confirm() -> Seq<char> {
    seq!['c', 'o', 'n', 'f', 'i', 'r', 'm']
}

/// The keyword `tokenmeta`.
pub open spec fn kw_tokenmeta() -> Seq<char> {
    seq!['t', 'o', 'k', 'e', 'n', 'm', 'e', 't', 'a']
}

/// The keyword `creator_init`.
pub open spec fn kw_creator_init() -> Seq<char> {
    seq!['c', 'r', 'e', 'a', 't', 'o', 'r', '_', 'i', 'n', 'i', 't']
}

/// The keyword `creator_buy`.
pub open spec fn kw_creator_buy() -> Seq<char> {
    seq!['c', 'r', 'e', 'a', 't', 'o', 'r', '_', 'b', 'u', 'y']
}

/// The keyword `creator_sell`.
pub open spec fn kw_creator_sell() -> Seq<char> {
    seq!['c', 'r', 'e', 'a', 't', 'o', 'r', '_', 's', 'e', 'l', 'l']
}

/// The keyword `creator_link`.
pub open spec fn kw_creator_link() -> Seq<char> {
    seq!['c', 'r', 'e', 'a', 't', 'o', 'r', '_', 'l', 'i', 'n', 'k']
}

/// The keyword a field names: 1 to 12 in the order `tick`, `migrate`, `trade`,
/// `narr`, `social`, `wallet`, `confirm`, `tokenmeta`, `creator_init`,
/// `creator_buy`, `creator_sell`, `creator_link`; 0 for anything else.
pub open spec fn kw_code(t: Seq<char>) -> u8 {
    if t == kw_tick() {
        1
    } else if t == kw_migrate() {
        2
    } else if t == kw_trade() {
        3
    } else if t == kw_narr() {
        4
    } else if t == kw_social() {
        5
    } else if t == kw_wallet() {
        6
    } else if t == kw_confirm() {
        7
    } else if t == kw_tokenmeta() {
        8
    } else if t == kw_creator_init() {
        9
    } else if t == kw_creator_buy() {
        10
    } else if t == kw_creator_sell() {
        11
    } else if t == kw_creator_link() {
        12
    } else {
        0
    }
}

/// Why a line did not parse.
#[derive(Clone, Copy, Debug, PartialEq, Eq, Structural)]
pub enum LineFault {
    /// A mint field is not 64 hexadecimal digits.
    BadMint,
    /// An integer field is not a decimal `i64`.
    BadInteger,
    /// The price field is not a decimal `i128`.
    BadPriceFp,
    /// The keyword is unknown or the field count does not match it.
    UnknownOrMalformed,
}

/// The fault of a mint field, if any.
pub open spec fn mint_fault(t: Seq<char>) -> Option<LineFault> {
    if is_mint_field(t) { None } else { Some(LineFault::BadMint) }
}

/// The fault of an integer field, if any.
pub open spec fn int_fault(t: Seq<char>) -> Option<LineFault> {
    if spec_i64_field(t) is Some { None } else { Some(LineFault::BadInteger) }
}

/// The fault of a price field, if any.
pub open spec fn price_fault(t: Seq<char>) -> Option<LineFault> {
    if spec_i128_field(t) is Some { None } else { Some(LineFault::BadPriceFp) }
}

/// The first of two faults, checked in order.
pub open spec fn or_else(a: Option<LineFault>, b: Option<LineFault>) -> Option<LineFault> {
    if a is Some { a } else { b }
}

/// The fault of a mint field `f[1]` followed by integer fields `f[2..=last]`.
pub open spec fn mint_ints_fault(f: Seq<Seq<char>>, last: int) -> Option<LineFault> {
    or_else(mint_fault(f[1]), ints_fault(f, 2, last))
}

/// The first fault among the integer fields `f[i..=last]`.
pub open spec fn ints_fault(f: Seq<Seq<char>>, i: int, last: int) -> Option<LineFault>
    decreases last - i + 1,
{
    if i > last {
        None
    } else {
        or_else(int_fault(f[i]), ints_fault(f, i + 1, last))
    }
}

/// Why the fields of a non-empty line do not spell an event, or `None` when
/// they do. `tick` ignores any further fields; every other keyword needs its
/// exact field count, and its fields are checked left to right.
pub open spec fn line_fault(f: Seq<Seq<char>>) -> Option<LineFault> {
    let c = kw_code(f[0]);
    if c == 1 {
        None
    } else if c == 2 && f.len() == 3 {
        mint_ints_fault(f, 2)
    } else if c == 3 && f.len() == 8 {
        or_else(mint_fault(f[1]), or_else(price_fault(f[2]), ints_fault(f, 3, 7)))
    } else if (c == 4 || c == 6 || c == 7) && f.len() == 4 {
        mint_ints_fault(f, 3)
    } else if c == 5 && f.len() == 3 {
        mint_ints_fault(f, 2)
    } else if c == 8 && f.len() == 6 {
        mint_ints_fault(f, 5)
    } else if 9 <= c <= 12 && f.len() == 5 {
        mint_ints_fault(f, 4)
    } else {
        Some(LineFault::UnknownOrMalformed)
    }
}

/// Integer field `i` of a line that parsed.
pub open spec fn ival(f: Seq<Seq<char>>, i: int) -> i64 {
    spec_i64_field(f[i])->Some_0
}

/// Whether `ev` is the event the (fault-free, non-empty) fields `f` spell.
pub open spec fn event_fits(ev: AppEvent, f: Seq<Seq<char>>) -> bool {
    let c = kw_code(f[0]);
    if c == 1 {
        ev == AppEvent::Tick
    } else if c == 2 {
        ev matches AppEvent::Migration { mint, slot } && mint@ == mint_bytes(f[1]) && slot == clamp_u64(ival(f, 2))
    } else if c == 3 {
        ev matches AppEvent::MarketTrade { mint, price_fp, quote_lamports, liquidity_lamports, signed_base, buyer_entity, age_slots }
            && mint@ == mint_bytes(f[1]) && price_fp == spec_i128_field(f[2])->Some_0 && quote_lamports == clamp_u64(ival(f, 3))
            && liquidity_lamports == clamp_u64(ival(f, 4)) && signed_base == ival(f, 5) && buyer_entity == clamp_u64(ival(f, 6))
            && age_slots == clamp_u32(ival(f, 7))
    } else if c == 4 {
        ev matches AppEvent::NarrativeSample { mint, prior_active, new_mentions } && mint@ == mint_bytes(f[1])
            && prior_active == clamp_u64(ival(f, 2)) && new_mentions == clamp_u64(ival(f, 3))
    } else if c == 5 {
        ev matches AppEvent::SocialCall { mint, source_quality_bp } && mint@ == mint_bytes(f[1])
            && source_quality_bp == clamp_u32(ival(f, 2))
    } else if c == 6 {
        ev matches AppEvent::WalletAction { mint, followable, size_lamports } && mint@ == mint_bytes(f[1])
            && followable == (ival(f, 2) != 0) && size_lamports == clamp_u64(ival(f, 3))
    } else if c == 7 {
        ev matches AppEvent::OnchainConfirm { mint, virtual_sol_lamports, real_sol_lamports } && mint@ == mint_bytes(f[1])
            && virtual_sol_lamports == clamp_u64(ival(f, 2)) && real_sol_lamports == clamp_u64(ival(f, 3))
    } else if c == 8 {
        ev matches AppEvent::TokenMetadata { mint, category_id, taxonomy_version, creator, slot } && mint@ == mint_bytes(f[1])
            && category_id == clamp_u64(ival(f, 2)) && taxonomy_version == clamp_u32(ival(f, 3))
            && creator == clamp_u64(ival(f, 4)) && slot == clamp_u64(ival(f, 5))
    } else {
        ev matches AppEvent::CreatorAction { mint, kind, slot } && mint@ == mint_bytes(f[1]) && slot == clamp_u64(ival(f, 4))
            && kind == (if c == 9 {
                CreatorActionKind::Init { initial_tokens: clamp_u64(ival(f, 2)), total_supply: clamp_u64(ival(f, 3)) }
            } else if c == 10 {
                CreatorActionKind::Buy { tokens: clamp_u64(ival(f, 2)), quote_lamports: clamp_u64(ival(f, 3)) }
            } else if c == 11 {
                CreatorActionKind::Sell { tokens: clamp_u64(ival(f, 2)), quote_lamports: clamp_u64(ival(f, 3)) }
            } else {
                CreatorActionKind::LinkedBuy { cluster: clamp_u64(ival(f, 2)), tokens: clamp_u64(ival(f, 3)) }
            })
    }
}

/// The first faulty non-empty line among `lines` (one-based number and fault),
/// or `None`.
pub open spec fn first_bad_line(lines: Seq<Seq<char>>) -> Option<(nat, LineFault)>
    decreases lines.len(),
{
    if lines.len() == 0 {
        None
    } else {
        let earlier = first_bad_line(lines.drop_last());
        let f = line_fields(lines.last());
        if earlier is Some {
            earlier
        } else if f.len() > 0 && line_fault(f) is Some {
            Some((lines.len(), line_fault(f)->Some_0))
        } else {
            None
        }
    }
}

/// Whether `evs` are the events the non-empty lines among `lines` spell, in
/// order.
pub open spec fn events_fit(lines: Seq<Seq<char>>, evs: Seq<AppEvent>) -> bool
    decreases lines.len(),
{
    if lines.len() == 0 {
        evs.len() == 0
    } else {
        let f = line_fields(lines.last());
        if f.len() == 0 {
            events_fit(lines.drop_last(), evs)
        } else {
            evs.len() > 0 && event_fits(evs.last(), f) && events_fit(lines.drop_last(), evs.drop_last())
        }
    }
}

// ---------------------------------------------------------------------------
// Scanning
// ---------------------------------------------------------------------------

/// The fields named by index ranges into `s`.
pub open spec fn range_fields(s: Seq<char>, r: Seq<(usize, usize)>) -> Seq<Seq<char>> {
    Seq::new(r.len(), |i: int| s.subrange(r[i].0 as int, r[i].1 as int))
}

/// Every range lies within `lo..hi` and is non-empty.
pub open spec fn ranges_within(r: Seq<(usize, usize)>, lo: int, hi: int) -> bool {
    forall|i: int| 0 <= i < r.len() ==> lo <= (#[trigger] r[i]).0 < r[i].1 <= hi
}

fn is_ws_char(c: char) -> (r: bool)
    ensures
        r == is_ws(c),
{
    ('\t' <= c && c <= '\r') || c == ' ' || c == '\u{85}' || c == '\u{a0}' || c == '\u{1680}' || ('\u{2000}' <= c
        && c <= '\u{200a}') || c == '\u{2028}' || c == '\u{2029}' || c == '\u{202f}' || c == '\u{205f}' || c
        == '\u{3000}'
}

/// The whitespace-separated fields of `s[a..b]`, as index ranges.
fn field_ranges(s: &Vec<char>, a: usize, b: usize) -> (r: Vec<(usize, usize)>)
    requires
        a <= b <= s@.len(),
    ensures
        ranges_within(r@, a as int, b as int),
        range_fields(s@, r@) == fields(s@.subrange(a as int, b as int)),
{
    let mut out: Vec<(usize, usize)> = Vec::new();
    let mut k: usize = a;
    while k < b
        invariant
            a <= k <= b <= s@.len(),
            ranges_within(out@, a as int, k as int),
            fields(s@.subrange(a as int, b as int)) == range_fields(s@, out@) + fields(s@.subrange(k as int, b as int)),
        decreases b - k,
    {
        let ghost rest = s@.subrange(k as int, b as int);
        if is_ws_char(s[k]) {
            assert(rest.drop_first() =~= s@.subrange(k + 1, b as int));
            k += 1;
        } else {
            let t0 = k;
            while k < b && !is_ws_char(s[k])
                invariant
                    t0 <= k <= b <= s@.len(),
                    forall|j: int| t0 <= j < k ==> !is_ws(#[trigger] s@[j]),
                decreases b - k,
            {
                k += 1;
            }
            proof {
                lemma_find_ws(rest, k - t0);
                assert(rest.take(k - t0) =~= s@.subrange(t0 as int, k as int));
                assert(rest.skip(k - t0) =~= s@.subrange(k as int, b as int));
                let old_out = out@;
                assert(range_fields(s@, old_out.push((t0, k))) =~= range_fields(s@, old_out) + seq![s@.subrange(t0 as int, k as int)]);
            }
            out.push((t0, k));
        }
    }
    proof {
        assert(s@.subrange(b as int, b as int) =~= Seq::<char>::empty());
        assert(range_fields(s@, out@) + Seq::<Seq<char>>::empty() =~= range_fields(s@, out@));
    }
    out
}

// ---------------------------------------------------------------------------
// Field parsers
// ---------------------------------------------------------------------------

proof fn lemma_digits_value_nonneg(d: Seq<char>)
    requires
        all_digits(d),
    ensures
        digits_value(d) >= 0,
    decreases d.len(),
{
    if d.len() > 0 {
        lemma_digits_value_nonneg(d.drop_last());
    }
}

/// A prefix of a digit run is worth no more than the run.
proof fn lemma_digits_prefix_le(d: Seq<char>, i: int)
    requires
        all_digits(d),
        0 <= i <= d.len(),
    ensures
        digits_value(d.take(i)) <= digits_value(d),
    decreases d.len(),
{
    if i < d.len() {
        let p = d.drop_last();
        assert(p.take(i) =~= d.take(i));
        lemma_digits_prefix_le(p, i);
        lemma_digits_value_nonneg(p);
    } else {
        assert(d.take(i) =~= d);
    }
}

/// The magnitude spelled by the digits `s[a..b]`, when they are all digits and
/// the value fits a `u128`.
fn parse_magnitude(s: &Vec<char>, a: usize, b: usize) -> (r: Option<u128>)
    requires
        a <= b <= s@.len(),
    ensures
        match r {
            Some(v) => a < b && all_digits(s@.subrange(a as int, b as int)) && v == digits_value(s@.subrange(a as int, b as int)),
            None => a == b || !all_digits(s@.subrange(a as int, b as int)) || digits_value(s@.subrange(a as int, b as int)) > u128::MAX,
        },
{
    if a == b {
        return None;
    }
    let ghost t = s@.subrange(a as int, b as int);
    let mut acc: u128 = 0;
    let mut i: usize = a;
    while i < b
        invariant
            a <= i <= b <= s@.len(),
            t == s@.subrange(a as int, b as int),
            all_digits(s@.subrange(a as int, i as int)),
            acc == digits_value(s@.subrange(a as int, i as int)),
        decreases b - i,
    {
        let c = s[i];
        if !('0' <= c && c <= '9') {
            proof {
                assert(!is_digit(t[i - a]));
            }
            return None;
        }
        let d: u32 = (c as u32) - ('0' as u32);
        proof {
            assert(s@.subrange(a as int, i + 1).drop_last() =~= s@.subrange(a as int, i as int));
        }
        let next: Option<u128> = match acc.checked_mul(10) {
            Some(x) => x.checked_add(d as u128),
            None => None,
        };
        match next {
            Some(x) => {
                acc = x;
                i += 1;
            },
            None => {
                proof {
                    assert(digits_value(s@.subrange(a as int, i + 1)) > u128::MAX) by (nonlinear_arith)
                        requires
                            digits_value(s@.subrange(a as int, i + 1)) == acc * 10 + d,
                            acc * 10 > u128::MAX || acc * 10 + d > u128::MAX,
                            d >= 0,
                    ;
                    if all_digits(t) {
                        assert(t.take(i + 1 - a) =~= s@.subrange(a as int, i + 1));
                        lemma_digits_prefix_le(t, i + 1 - a);
                    }
                }
                return None;
            },
        }
    }
    Some(acc)
}

/// The `i128` spelled by the field `s[a..b]`, when it is one.
fn i128_field(s: &Vec<char>, a: usize, b: usize) -> (r: Option<i128>)
    requires
        a <= b <= s@.len(),
    ensures
        r == spec_i128_field(s@.subrange(a as int, b as int)),
{
    let ghost t = s@.subrange(a as int, b as int);
    if a == b {
        return None;
    }
    let c0 = s[a];
    let neg = c0 == '-';
    let signed = neg || c0 == '+';
    let start: usize = if signed { a + 1 } else { a };
    proof {
        if signed {
            assert(t.drop_first() =~= s@.subrange(start as int, b as int));
        } else {
            assert(t =~= s@.subrange(start as int, b as int));
        }
    }
    let ghost d = s@.subrange(start as int, b as int);
    proof {
        assert(t[0] == c0);
    }
    let mres = parse_magnitude(s, start, b);
    proof {
        assert(spec_decimal(t) == (if d.len() == 0 || !all_digits(d) {
            None
        } else if c0 == '-' {
            Some(-digits_value(d))
        } else {
            Some(digits_value(d))
        }));
    }
    match mres {
        None => {
            proof {
                if d.len() > 0 && all_digits(d) {
                    assert(digits_value(d) > u128::MAX);
                }
            }
            None
        },
        Some(m) => {
            if neg {
                if m <= 0x8000_0000_0000_0000_0000_0000_0000_0000u128 {
                    if m == 0x8000_0000_0000_0000_0000_0000_0000_0000u128 {
                        Some(i128::MIN)
                    } else {
                        Some(-(m as i128))
                    }
                } else {
                    None
                }
            } else {
                if m <= 0x7fff_ffff_ffff_ffff_ffff_ffff_ffff_ffffu128 {
                    Some(m as i128)
                } else {
                    None
                }
            }
        },
    }
}

/// The `i64` spelled by the field `s[a..b]`, when it is one.
fn i64_field(s: &Vec<char>, a: usize, b: usize) -> (r: Option<i64>)
    requires
        a <= b <= s@.len(),
    ensures
        r == spec_i64_field(s@.subrange(a as int, b as int)),
{
    match i128_field(s, a, b) {
        Some(v) => {
            if i64::MIN as i128 <= v && v <= i64::MAX as i128 {
                Some(v as i64)
            } else {
                None
            }
        },
        None => None,
    }
}

fn hex_digit(c: char) -> (r: i32)
    ensures
        r == hex_val(c),
{
    if '0' <= c && c <= '9' {
        (c as u32 - '0' as u32) as i32
    } else if 'a' <= c && c <= 'f' {
        (c as u32 - 'a' as u32 + 10) as i32
    } else if 'A' <= c && c <= 'F' {
        (c as u32 - 'A' as u32 + 10) as i32
    } else {
        -1
    }
}

/// The mint spelled by the field `s[a..b]`, when it is one.
fn mint_field(s: &Vec<char>, a: usize, b: usize) -> (r: Option<[u8; 32]>)
    requires
        a <= b <= s@.len(),
    ensures
        match r {
            Some(m) => is_mint_field(s@.subrange(a as int, b as int)) && m@ == mint_bytes(s@.subrange(a as int, b as int)),
            None => !is_mint_field(s@.subrange(a as int, b as int)),
        },
{
    let ghost t = s@.subrange(a as int, b as int);
    if b - a != 64 {
        return None;
    }
    let mut k: usize = 0;
    while k < 64
        invariant
            k <= 64,
            b - a == 64,
            a <= b <= s@.len(),
            t == s@.subrange(a as int, b as int),
            forall|j: int| 0 <= j < k ==> hex_val(#[trigger] t[j]) >= 0,
        decreases 64 - k,
    {
        if hex_digit(s[a + k]) < 0 {
            assert(hex_val(t[k as int]) < 0);
            return None;
        }
        k += 1;
    }
    let mut m: [u8; 32] = [0u8; 32];
    let mut i: usize = 0;
    while i < 32
        invariant
            i <= 32,
            b - a == 64,
            a <= b <= s@.len(),
            t == s@.subrange(a as int, b as int),
            is_mint_field(t),
            forall|j: int| 0 <= j < i ==> #[trigger] m@[j] == mint_bytes(t)[j],
        decreases 32 - i,
    {
        let hi = hex_digit(s[a + 2 * i]);
        let lo = hex_digit(s[a + 2 * i + 1]);
        proof {
            assert(0 <= hex_val(t[2 * i as int]) < 16);
            assert(0 <= hex_val(t[2 * i + 1]) < 16);
        }
        let byte: u8 = (hi * 16 + lo) as u8;
        m[i] = byte;
        i += 1;
    }
    proof {
        assert(m@ =~= mint_bytes(t));
    }
    Some(m)
}

// ---------------------------------------------------------------------------
// Keywords and lines
// ---------------------------------------------------------------------------

/// Whether the field `s[a..b]` is the word `kw`.
fn field_is(s: &Vec<char>, a: usize, b: usize, kw: &[char]) -> (r: bool)
    requires
        a <= b <= s@.len(),
    ensures
        r == (s@.subrange(a as int, b as int) == kw@),
{
    let ghost t = s@.subrange(a as int, b as int);
    if b - a != kw.len() {
        proof {
            if t == kw@ {
                assert(t.len() == kw@.len());
            }
        }
        return false;
    }
    let mut k: usize = 0;
    while k < kw.len()
        invariant
            k <= kw@.len(),
            b - a == kw@.len(),
            a <= b <= s@.len(),
            t == s@.subrange(a as int, b as int),
            forall|j: int| 0 <= j < k ==> t[j] == kw@[j],
        decreases kw@.len() - k,
    {
        if s[a + k] != kw[k] {
            proof {
                assert(t[k as int] != kw@[k as int]);
            }
            return false;
        }
        k += 1;
    }
    proof {
        assert(t =~= kw@);
    }
    true
}

/// The keyword code of the field `s[a..b]`.
fn keyword(s: &Vec<char>, a: usize, b: usize) -> (c: u8)
    requires
        a <= b <= s@.len(),
    ensures
        c == kw_code(s@.subrange(a as int, b as int)),
{
    let w1 = ['t', 'i', 'c', 'k'];
    proof {
        assert(w1@ =~= kw_tick());
    }
    if field_is(s, a, b, w1.as_slice()) {
        return 1;
    }
    let w2 = ['m', 'i', 'g', 'r', 'a', 't', 'e'];
    proof {
        assert(w2@ =~= kw_migrate());
    }
    if field_is(s, a, b, w2.as_slice()) {
        return 2;
    }
    let w3 = ['t', 'r', 'a', 'd', 'e'];
    proof {
        assert(w3@ =~= kw_trade());
    }
    if field_is(s, a, b, w3.as_slice()) {
        return 3;
    }
    let w4 = ['n', 'a', 'r', 'r'];
    proof {
        assert(w4@ =~= kw_narr());
    }
    if field_is(s, a, b, w4.as_slice()) {
        return 4;
    }
    let w5 = ['s', 'o', 'c', 'i', 'a', 'l'];
    proof {
        assert(w5@ =~= kw_social());
    }
    if field_is(s, a, b, w5.as_slice()) {
        return 5;
    }
    let w6 = ['w', 'a', 'l', 'l', 'e', 't'];
    proof {
        assert(w6@ =~= kw_wallet());
    }
    if field_is(s, a, b, w6.as_slice()) {
        return 6;
    }
    let w7 = ['c', 'o', 'n', 'f', 'i', 'r', 'm'];
    proof {
        assert(w7@ =~= kw_confirm());
    }
    if field_is(s, a, b, w7.as_slice()) {
        return 7;
    }
    let w8 = ['t', 'o', 'k', 'e', 'n', 'm', 'e', 't', 'a'];
    proof {
        assert(w8@ =~= kw_tokenmeta());
    }
    if field_is(s, a, b, w8.as_slice()) {
        return 8;
    }
    let w9 = ['c', 'r', 'e', 'a', 't', 'o', 'r', '_', 'i', 'n', 'i', 't'];
    proof {
        assert(w9@ =~= kw_creator_init());
    }
    if field_is(s, a, b, w9.as_slice()) {
        return 9;
    }
    let w10 = ['c', 'r', 'e', 'a', 't', 'o', 'r', '_', 'b', 'u', 'y'];
    proof {
        assert(w10@ =~= kw_creator_buy());
    }
    if field_is(s, a, b, w10.as_slice()) {
        return 10;
    }
    let w11 = ['c', 'r', 'e', 'a', 't', 'o', 'r', '_', 's', 'e', 'l', 'l'];
    proof {
        assert(w11@ =~= kw_creator_sell());
    }
    if field_is(s, a, b, w11.as_slice()) {
        return 11;
    }
    let w12 = ['c', 'r', 'e', 'a', 't', 'o', 'r', '_', 'l', 'i', 'n', 'k'];
    proof {
        assert(w12@ =~= kw_creator_link());
    }
    if field_is(s, a, b, w12.as_slice()) {
        return 12;
    }
    0
}

fn to_u64(v: i64) -> (r: u64)
    ensures
        r == clamp_u64(v),
{
    if v < 0 { 0 } else { v as u64 }
}

fn to_u32(v: i64) -> (r: u32)
    ensures
        r == clamp_u32(v),
{
    if v < 0 { 0 } else { #[verifier::truncate] (v as u32) }
}

/// Mint field `i` of a line.
fn get_mint(s: &Vec<char>, r: &Vec<(usize, usize)>, i: usize) -> (res: Result<[u8; 32], LineFault>)
    requires
        i < r@.len(),
        ranges_within(r@, 0, s@.len() as int),
    ensures
        match res {
            Ok(m) => mint_fault(range_fields(s@, r@)[i as int]) is None && m@ == mint_bytes(range_fields(s@, r@)[i as int]),
            Err(x) => mint_fault(range_fields(s@, r@)[i as int]) == Some(x),
        },
{
    let (a, b) = r[i];
    match mint_field(s, a, b) {
        Some(m) => Ok(m),
        None => Err(LineFault::BadMint),
    }
}

/// Integer field `i` of a line.
fn get_int(s: &Vec<char>, r: &Vec<(usize, usize)>, i: usize) -> (res: Result<i64, LineFault>)
    requires
        i < r@.len(),
        ranges_within(r@, 0, s@.len() as int),
    ensures
        match res {
            Ok(v) => int_fault(range_fields(s@, r@)[i as int]) is None && v == ival(range_fields(s@, r@), i as int),
            Err(x) => int_fault(range_fields(s@, r@)[i as int]) == Some(x),
        },
{
    let (a, b) = r[i];
    match i64_field(s, a, b) {
        Some(v) => Ok(v),
        None => Err(LineFault::BadInteger),
    }
}

/// Price field `i` of a line.
fn get_price(s: &Vec<char>, r: &Vec<(usize, usize)>, i: usize) -> (res: Result<i128, LineFault>)
    requires
        i < r@.len(),
        ranges_within(r@, 0, s@.len() as int),
    ensures
        match res {
            Ok(v) => price_fault(range_fields(s@, r@)[i as int]) is None && v == spec_i128_field(range_fields(s@, r@)[i as int])->Some_0,
            Err(x) => price_fault(range_fields(s@, r@)[i as int]) == Some(x),
        },
{
    let (a, b) = r[i];
    match i128_field(s, a, b) {
        Some(v) => Ok(v),
        None => Err(LineFault::BadPriceFp),
    }
}

proof fn lemma_ints_none_each(f: Seq<Seq<char>>, i: int, last: int, j: int)
    requires
        ints_fault(f, i, last) is None,
        i <= j <= last,
    ensures
        int_fault(f[j]) is None,
    decreases j - i,
{
    if i < j {
        lemma_ints_none_each(f, i + 1, last, j);
    }
}

/// The first fault among the integer fields `i..=last` of a line.
fn check_ints(s: &Vec<char>, r: &Vec<(usize, usize)>, i: usize, last: usize) -> (res: Option<LineFault>)
    requires
        i <= last < r@.len(),
        ranges_within(r@, 0, s@.len() as int),
    ensures
        res == ints_fault(range_fields(s@, r@), i as int, last as int),
{
    let ghost f = range_fields(s@, r@);
    let n = r.len();
    let mut k: usize = i;
    while k <= last
        invariant
            i <= k <= last + 1,
            last < n,
            n == r@.len(),
            ranges_within(r@, 0, s@.len() as int),
            f == range_fields(s@, r@),
            ints_fault(f, i as int, last as int) == ints_fault(f, k as int, last as int),
        decreases last + 1 - k,
    {
        match get_int(s, r, k) {
            Ok(_) => {},
            Err(x) => {
                return Some(x);
            },
        }
        k += 1;
    }
    None
}

/// The event a non-empty line's fields spell, or why they do not.
fn parse_line(s: &Vec<char>, r: &Vec<(usize, usize)>) -> (res: Result<AppEvent, LineFault>)
    requires
        r@.len() > 0,
        ranges_within(r@, 0, s@.len() as int),
    ensures
        match res {
            Ok(ev) => line_fault(range_fields(s@, r@)) is None && event_fits(ev, range_fields(s@, r@)),
            Err(x) => line_fault(range_fields(s@, r@)) == Some(x),
        },
{
    let ghost f = range_fields(s@, r@);
    let (a0, b0) = r[0];
    let c = keyword(s, a0, b0);
    let n = r.len();
    proof {
        assert(f[0] == s@.subrange(a0 as int, b0 as int));
        assert(kw_code(f[0]) == c);
    }
    if c == 1 {
        return Ok(AppEvent::Tick);
    }
    if c == 2 && n == 3 {
        let m = match get_mint(s, r, 1) { Ok(m) => m, Err(x) => { return Err(x); } };
        match check_ints(s, r, 2, 2) { Some(x) => { return Err(x); }, None => {} }
        proof {
            lemma_ints_none_each(f, 2, 2, 2);
        }
        let v = match get_int(s, r, 2) { Ok(v) => v, Err(x) => { return Err(x); } };
        return Ok(AppEvent::Migration { mint: m, slot: to_u64(v) });
    }
    if c == 3 && n == 8 {
        let m = match get_mint(s, r, 1) { Ok(m) => m, Err(x) => { return Err(x); } };
        let p = match get_price(s, r, 2) { Ok(v) => v, Err(x) => { return Err(x); } };
        match check_ints(s, r, 3, 7) { Some(x) => { return Err(x); }, None => {} }
        proof {
            assert forall|j: int| 3 <= j <= 7 implies int_fault(#[trigger] f[j]) is None by {
                lemma_ints_none_each(f, 3, 7, j);
            }
        }
        let q = match get_int(s, r, 3) { Ok(v) => v, Err(x) => { return Err(x); } };
        let l = match get_int(s, r, 4) { Ok(v) => v, Err(x) => { return Err(x); } };
        let sb = match get_int(s, r, 5) { Ok(v) => v, Err(x) => { return Err(x); } };
        let be = match get_int(s, r, 6) { Ok(v) => v, Err(x) => { return Err(x); } };
        let ag = match get_int(s, r, 7) { Ok(v) => v, Err(x) => { return Err(x); } };
        return Ok(AppEvent::MarketTrade {
            mint: m,
            price_fp: p,
            quote_lamports: to_u64(q),
            liquidity_lamports: to_u64(l),
            signed_base: sb,
            buyer_entity: to_u64(be),
            age_slots: to_u32(ag),
        });
    }
    if (c == 4 || c == 6 || c == 7) && n == 4 {
        let m = match get_mint(s, r, 1) { Ok(m) => m, Err(x) => { return Err(x); } };
        match check_ints(s, r, 2, 3) { Some(x) => { return Err(x); }, None => {} }
        proof {
            lemma_ints_none_each(f, 2, 3, 2);
            lemma_ints_none_each(f, 2, 3, 3);
        }
        let x2 = match get_int(s, r, 2) { Ok(v) => v, Err(x) => { return Err(x); } };
        let x3 = match get_int(s, r, 3) { Ok(v) => v, Err(x) => { return Err(x); } };
        if c == 4 {
            return Ok(AppEvent::NarrativeSample { mint: m, prior_active: to_u64(x2), new_mentions: to_u64(x3) });
        } else if c == 6 {
            return Ok(AppEvent::WalletAction { mint: m, followable: x2 != 0, size_lamports: to_u64(x3) });
        } else {
            return Ok(AppEvent::OnchainConfirm { mint: m, virtual_sol_lamports: to_u64(x2), real_sol_lamports: to_u64(x3) });
        }
    }
    if c == 5 && n == 3 {
        let m = match get_mint(s, r, 1) { Ok(m) => m, Err(x) => { return Err(x); } };
        match check_ints(s, r, 2, 2) { Some(x) => { return Err(x); }, None => {} }
        proof {
            lemma_ints_none_each(f, 2, 2, 2);
        }
        let q = match get_int(s, r, 2) { Ok(v) => v, Err(x) => { return Err(x); } };
        return Ok(AppEvent::SocialCall { mint: m, source_quality_bp: to_u32(q) });
    }
    if c == 8 && n == 6 {
        let m = match get_mint(s, r, 1) { Ok(m) => m, Err(x) => { return Err(x); } };
        match check_ints(s, r, 2, 5) { Some(x) => { return Err(x); }, None => {} }
        proof {
            assert forall|j: int| 2 <= j <= 5 implies int_fault(#[trigger] f[j]) is None by {
                lemma_ints_none_each(f, 2, 5, j);
            }
        }
        let x2 = match get_int(s, r, 2) { Ok(v) => v, Err(x) => { return Err(x); } };
        let x3 = match get_int(s, r, 3) { Ok(v) => v, Err(x) => { return Err(x); } };
        let x4 = match get_int(s, r, 4) { Ok(v) => v, Err(x) => { return Err(x); } };
        let x5 = match get_int(s, r, 5) { Ok(v) => v, Err(x) => { return Err(x); } };
        return Ok(AppEvent::TokenMetadata {
            mint: m,
            category_id: to_u64(x2),
            taxonomy_version: to_u32(x3),
            creator: to_u64(x4),
            slot: to_u64(x5),
        });
    }
    if 9 <= c && c <= 12 && n == 5 {
        let m = match get_mint(s, r, 1) { Ok(m) => m, Err(x) => { return Err(x); } };
        match check_ints(s, r, 2, 4) { Some(x) => { return Err(x); }, None => {} }
        proof {
            assert forall|j: int| 2 <= j <= 4 implies int_fault(#[trigger] f[j]) is None by {
                lemma_ints_none_each(f, 2, 4, j);
            }
        }
        let x2 = match get_int(s, r, 2) { Ok(v) => v, Err(x) => { return Err(x); } };
        let x3 = match get_int(s, r, 3) { Ok(v) => v, Err(x) => { return Err(x); } };
        let x4 = match get_int(s, r, 4) { Ok(v) => v, Err(x) => { return Err(x); } };
        let kind = if c == 9 {
            CreatorActionKind::Init { initial_tokens: to_u64(x2), total_supply: to_u64(x3) }
        } else if c == 10 {
            CreatorActionKind::Buy { tokens: to_u64(x2), quote_lamports: to_u64(x3) }
        } else if c == 11 {
            CreatorActionKind::Sell { tokens: to_u64(x2), quote_lamports: to_u64(x3) }
        } else {
            CreatorActionKind::LinkedBuy { cluster: to_u64(x2), tokens: to_u64(x3) }
        };
        return Ok(AppEvent::CreatorAction { mint: m, kind, slot: to_u64(x4) });
    }
    Err(LineFault::UnknownOrMalformed)
}

// ---------------------------------------------------------------------------
// The event stream
// ---------------------------------------------------------------------------

/// A malformed line: its one-based number, what is wrong with it, and its
/// first field (the keyword).
#[derive(Clone, Debug, PartialEq, Eq)]
pub struct EventParseError {
    /// One-based line number.
    pub line: usize,
    /// What is wrong.
    pub fault: LineFault,
    /// The line's first field.
    pub keyword: Vec<char>,
}

/// A bad line stays the first bad line whatever follows it.
proof fn lemma_first_bad_line_prefix(a: Seq<Seq<char>>, b: Seq<Seq<char>>)
    requires
        first_bad_line(a) is Some,
    ensures
        first_bad_line(a + b) == first_bad_line(a),
    decreases b.len(),
{
    if b.len() == 0 {
        assert(a + b =~= a);
    } else {
        lemma_first_bad_line_prefix(a, b.drop_last());
        assert((a + b).drop_last() =~= a + b.drop_last());
    }
}

/// Parse a whole event text given as characters.
pub fn parse_event_chars(s: &Vec<char>) -> (res: Result<Vec<AppEvent>, EventParseError>)
    ensures
        match res {
            Ok(evs) => first_bad_line(split_lines(s@)) is None && events_fit(split_lines(s@), evs@),
            Err(e) => {
                &&& first_bad_line(split_lines(s@)) == Some((e.line as nat, e.fault))
                &&& 1 <= e.line <= split_lines(s@).len()
                &&& e.keyword@ == line_fields(split_lines(s@)[e.line - 1])[0]
            },
        },
{
    let n = s.len();
    let mut out: Vec<AppEvent> = Vec::new();
    let mut start: usize = 0;
    let mut line_ix: usize = 0;
    let ghost lines = split_lines(s@);
    let ghost mut done: Seq<Seq<char>> = Seq::empty();
    proof {
        assert(s@.skip(0) =~= s@);
        assert(done + split_lines(s@.skip(0)) =~= split_lines(s@));
    }
    loop
        invariant
            n == s@.len(),
            start <= n,
            line_ix <= start,
            done.len() == line_ix,
            lines == split_lines(s@),
            lines == done + split_lines(s@.skip(start as int)),
            first_bad_line(done) is None,
            events_fit(done, out@),
        decreases n - start,
    {
        let ghost rest = s@.skip(start as int);
        let mut j: usize = start;
        while j < n && s[j] != '\n'
            invariant
                start <= j <= n,
                n == s@.len(),
                forall|k: int| start <= k < j ==> s@[k] != '\n',
            decreases n - j,
        {
            j += 1;
        }
        let mut h: usize = start;
        while h < j && s[h] != '#'
            invariant
                start <= h <= j,
                j <= n,
                n == s@.len(),
                forall|k: int| start <= k < h ==> s@[k] != '#',
            decreases j - h,
        {
            h += 1;
        }
        let ghost line = s@.subrange(start as int, j as int);
        proof {
            lemma_find_char(rest, '\n', j - start);
            lemma_find_char(line, '#', h - start);
            assert(rest.take(j - start) =~= line);
            assert(before_hash(line) =~= s@.subrange(start as int, h as int));
            if j < n {
                assert(rest.skip(j - start + 1) =~= s@.skip(j + 1));
                assert(split_lines(rest) == seq![line] + split_lines(s@.skip(j + 1)));
            } else {
                assert(rest =~= line);
                assert(split_lines(rest) == seq![line]);
            }
        }
        let ranges = field_ranges(s, start, h);
        proof {
            assert(line_fields(line) == range_fields(s@, ranges@));
            assert(ranges_within(ranges@, 0, n as int));
            assert((done.push(line)).drop_last() =~= done);
            assert((done.push(line)).last() == line);
        }
        if ranges.len() > 0 {
            match parse_line(s, &ranges) {
                Ok(ev) => {
                    let ghost prev = out@;
                    out.push(ev);
                    proof {
                        assert(out@.drop_last() =~= prev);
                    }
                },
                Err(fault) => {
                    let (a0, b0) = ranges[0];
                    let mut kw: Vec<char> = Vec::new();
                    let mut k: usize = a0;
                    while k < b0
                        invariant
                            a0 <= k <= b0 <= n,
                            n == s@.len(),
                            kw@ == s@.subrange(a0 as int, k as int),
                        decreases b0 - k,
                    {
                        kw.push(s[k]);
                        k += 1;
                        assert(kw@ =~= s@.subrange(a0 as int, k as int));
                    }
                    proof {
                        let d2 = done.push(line);
                        assert(first_bad_line(d2) == Some(((line_ix + 1) as nat, fault)));
                        let tail = if j < n { split_lines(s@.skip(j + 1)) } else { Seq::<Seq<char>>::empty() };
                        assert(lines =~= d2 + tail);
                        lemma_first_bad_line_prefix(d2, tail);
                        assert(lines[line_ix as int] == line);
                        assert(range_fields(s@, ranges@)[0] == s@.subrange(a0 as int, b0 as int));
                    }
                    return Err(EventParseError { line: line_ix + 1, fault, keyword: kw });
                },
            }
        }
        proof {
            done = done.push(line);
        }
        if j == n {
            proof {
                assert(lines =~= done);
            }
            return Ok(out);
        }
        proof {
            assert(lines =~= done + split_lines(s@.skip(j + 1)));
        }
        start = j + 1;
        line_ix = line_ix + 1;
    }
}

/// Parse a whole event text: the events of its non-empty lines in order, or
/// the first malformed line.
pub fn parse_events(text: &str) -> (res: Result<Vec<AppEvent>, EventParseError>)
    ensures
        match res {
            Ok(evs) => first_bad_line(split_lines(text@)) is None && events_fit(split_lines(text@), evs@),
            Err(e) => {
                &&& first_bad_line(split_lines(text@)) == Some((e.line as nat, e.fault))
                &&& 1 <= e.line <= split_lines(text@).len()
                &&& e.keyword@ == line_fields(split_lines(text@)[e.line - 1])[0]
            },
        },
{
    let mut chars: Vec<char> = Vec::new();
    for c in it: text.chars()
        invariant
            chars@ == it.seq().take(it.index() as int),
    {
        chars.push(c);
    }
    assert(chars@ =~= text@);
    parse_event_chars(&chars)
}

} // verus!

