use vstd::prelude::*;
use vstd::arithmetic::div_mod::lemma_fundamental_div_mod_converse;

use crate::error::ReplicationError;

verus! {

/// Weight of the suffix-width field: it occupies bits 123..=127 of a packed offset.
pub const WIDTH_UNIT: u128 = 0x0800_0000_0000_0000_0000_0000_0000_0000;

/// Weight of the numeric-suffix field: it occupies bits 64..=122 of a packed offset.
pub const SUFFIX_UNIT: u128 = 0x1_0000_0000_0000_0000;

/// Number of values the 59-bit suffix field can hold.
pub const SUFFIX_MODULUS: u128 = 0x0800_0000_0000_0000;

/// Number of values a byte offset (`u32`) can hold.
pub const POSITION_MODULUS: u128 = 0x1_0000_0000;

/// Longest decimal suffix that fits into the 59-bit suffix field.
pub const MAX_SUFFIX_WIDTH: usize = 17;

/// A point in the binlog: a file named `basename.NNNNNN` and a byte offset in that file.
#[derive(Debug)]
pub struct BinlogPosition {
    pub binlog_file: String,
    pub position: u32,
}

/// A position packed into one monotone 128-bit value, plus the file's basename.
#[derive(Debug)]
pub struct ReplicationOffset {
    pub offset: u128,
    pub replication_log_name: String,
}

pub open spec fn is_digit(c: char) -> bool {
    '0' <= c && c <= '9'
}

pub open spec fn digit_val(c: char) -> nat {
    (c as int - '0' as int) as nat
}

pub open spec fn digit_char(d: nat) -> char {
    if d == 0 {
        '0'
    } else if d == 1 {
        '1'
    } else if d == 2 {
        '2'
    } else if d == 3 {
        '3'
    } else if d == 4 {
        '4'
    } else if d == 5 {
        '5'
    } else if d == 6 {
        '6'
    } else if d == 7 {
        '7'
    } else if d == 8 {
        '8'
    } else {
        '9'
    }
}

pub open spec fn all_digits(s: Seq<char>) -> bool {
    forall|i: int| 0 <= i < s.len() ==> is_digit(#[trigger] s[i])
}

/// The number that a string of decimal digits denotes.
pub open spec fn decimal_value(s: Seq<char>) -> nat
    decreases s.len(),
{
    if s.len() == 0 {
        0
    } else {
        decimal_value(s.drop_last()) * 10 + digit_val(s.last())
    }
}

pub open spec fn pow10(n: nat) -> nat
    decreases n,
{
    if n == 0 {
        1
    } else {
        10 * pow10((n - 1) as nat)
    }
}

/// Index of the last `.` among the first `n` characters of `s`.
pub open spec fn last_dot_before(s: Seq<char>, n: int) -> Option<int>
    decreases n,
{
    if n <= 0 {
        None
    } else if s[n - 1] == '.' {
        Some(n - 1)
    } else {
        last_dot_before(s, n - 1)
    }
}

/// Index of the last `.` in `s`: the separator between basename and suffix.
pub open spec fn last_dot(s: Seq<char>) -> Option<int> {
    last_dot_before(s, s.len() as int)
}

/// The part of a file name after its last `.` (`s` must hold one).
pub open spec fn suffix_of(s: Seq<char>) -> Seq<char> {
    s.subrange(last_dot(s)->0 + 1, s.len() as int)
}

/// The part of a file name before its last `.` (`s` must hold one).
pub open spec fn basename_of(s: Seq<char>) -> Seq<char> {
    s.subrange(0, last_dot(s)->0)
}

/// A suffix that can be packed: 1 to 17 decimal digits.
pub open spec fn valid_suffix(t: Seq<char>) -> bool {
    1 <= t.len() <= MAX_SUFFIX_WIDTH && all_digits(t)
}

/// The packed offset: suffix width in bits 123..=127, suffix in bits 64..=122, offset below.
pub open spec fn packed_offset(width: nat, suffix: nat, pos: nat) -> nat {
    width * (WIDTH_UNIT as nat) + suffix * (SUFFIX_UNIT as nat) + pos
}

/// The packed offset of a file name that `valid_suffix` accepts, and a byte offset.
pub open spec fn encoded_offset(file: Seq<char>, pos: u32) -> nat {
    packed_offset(suffix_of(file).len(), decimal_value(suffix_of(file)), pos as nat)
}

pub open spec fn width_field(o: u128) -> nat {
    (o / WIDTH_UNIT) as nat
}

pub open spec fn suffix_field(o: u128) -> nat {
    ((o / SUFFIX_UNIT) % SUFFIX_MODULUS) as nat
}

pub open spec fn position_field(o: u128) -> u32 {
    (o % POSITION_MODULUS) as u32
}

/// How many decimal digits `v` is written with (`0` has one).
pub open spec fn num_digits(v: nat) -> nat
    decreases v,
{
    if v < 10 {
        1
    } else {
        1 + num_digits(v / 10)
    }
}

/// The last `n` decimal digits of `v`, with leading zeros.
pub open spec fn fixed_digits(v: nat, n: nat) -> Seq<char>
    decreases n,
{
    if n == 0 {
        seq![]
    } else {
        fixed_digits(v / 10, (n - 1) as nat).push(digit_char(v % 10))
    }
}

/// `v` in decimal, padded with leading zeros to at least `width` characters.
pub open spec fn padded_decimal(v: nat, width: nat) -> Seq<char> {
    fixed_digits(
        v,
        if width > num_digits(v) {
            width
        } else {
            num_digits(v)
        },
    )
}

/// The file name that a packed offset and basename stand for.
pub open spec fn decoded_file(name: Seq<char>, o: u128) -> Seq<char> {
    name + seq!['.'] + padded_decimal(suffix_field(o), width_field(o))
}

/// Outcome of comparing position `(fa, pa)` with position `(fb, pb)`: by byte offset within
/// one file; within one basename by suffix number, ties broken on the byte offset; else
/// incomparable (`None`).
pub open spec fn compare_positions(fa: Seq<char>, pa: u32, fb: Seq<char>, pb: u32) -> Option<
    core::cmp::Ordering,
> {
    if fa == fb {
        Some(compare_nat(pa as nat, pb as nat))
    } else if last_dot(fa) is None || last_dot(fb) is None {
        None
    } else if basename_of(fa) != basename_of(fb) {
        None
    } else if !comparable_suffix(suffix_of(fa)) || !comparable_suffix(suffix_of(fb)) {
        None
    } else if decimal_value(suffix_of(fa)) == decimal_value(suffix_of(fb)) {
        Some(compare_nat(pa as nat, pb as nat))
    } else {
        Some(compare_nat(decimal_value(suffix_of(fa)), decimal_value(suffix_of(fb))))
    }
}

/// A suffix that the ordering can read as a number: 1 or more digits, below 2^64.
pub open spec fn comparable_suffix(t: Seq<char>) -> bool {
    1 <= t.len() && all_digits(t) && decimal_value(t) <= u64::MAX
}

pub open spec fn compare_nat(x: nat, y: nat) -> core::cmp::Ordering {
    if x < y {
        core::cmp::Ordering::Less
    } else if x == y {
        core::cmp::Ordering::Equal
    } else {
        core::cmp::Ordering::Greater
    }
}

/// Position `(fa, pa)` is at or after position `(fb, pb)` in the same log family.
pub open spec fn at_or_after(fa: Seq<char>, pa: u32, fb: Seq<char>, pb: u32) -> bool {
    compare_positions(fa, pa, fb, pb) == Some(core::cmp::Ordering::Greater)
        || compare_positions(fa, pa, fb, pb) == Some(core::cmp::Ordering::Equal)
}

proof fn lemma_decimal_div_mod(s: Seq<char>)
    requires
        s.len() >= 1,
        all_digits(s),
    ensures
        decimal_value(s) / 10 == decimal_value(s.drop_last()),
        decimal_value(s) % 10 == digit_val(s.last()),
{
    let d = digit_val(s.last());
    assert(is_digit(s[s.len() - 1]));
    assert(d < 10);
    lemma_fundamental_div_mod_converse(
        decimal_value(s) as int,
        10,
        decimal_value(s.drop_last()) as int,
        d as int,
    );
}

proof fn lemma_digit_roundtrip(c: char)
    requires
        is_digit(c),
    ensures
        digit_char(digit_val(c)) == c,
{
}

proof fn lemma_fixed_digits_of_value(s: Seq<char>)
    requires
        all_digits(s),
    ensures
        fixed_digits(decimal_value(s), s.len()) == s,
    decreases s.len(),
{
    if s.len() > 0 {
        let t = s.drop_last();
        assert(all_digits(t)) by {
            assert forall|i: int| 0 <= i < t.len() implies is_digit(#[trigger] t[i]) by {
                assert(t[i] == s[i]);
            }
        }
        lemma_decimal_div_mod(s);
        lemma_fixed_digits_of_value(t);
        assert(is_digit(s[s.len() - 1]));
        lemma_digit_roundtrip(s.last());
        assert(fixed_digits(decimal_value(s), s.len()) =~= t.push(s.last()));
        assert(t.push(s.last()) =~= s);
    }
}

proof fn lemma_num_digits_within(s: Seq<char>)
    requires
        s.len() >= 1,
        all_digits(s),
    ensures
        num_digits(decimal_value(s)) <= s.len(),
    decreases s.len(),
{
    let v = decimal_value(s);
    if v >= 10 {
        let t = s.drop_last();
        assert(all_digits(t)) by {
            assert forall|i: int| 0 <= i < t.len() implies is_digit(#[trigger] t[i]) by {
                assert(t[i] == s[i]);
            }
        }
        lemma_decimal_div_mod(s);
        if t.len() == 0 {
            assert(decimal_value(t) == 0);
            assert(is_digit(s[s.len() - 1]));
            assert(v < 10);
        } else {
            lemma_num_digits_within(t);
        }
    }
}

proof fn lemma_decimal_bound(s: Seq<char>)
    requires
        all_digits(s),
    ensures
        decimal_value(s) < pow10(s.len()),
    decreases s.len(),
{
    if s.len() > 0 {
        let t = s.drop_last();
        assert(all_digits(t)) by {
            assert forall|i: int| 0 <= i < t.len() implies is_digit(#[trigger] t[i]) by {
                assert(t[i] == s[i]);
            }
        }
        lemma_decimal_bound(t);
        assert(is_digit(s[s.len() - 1]));
        assert(decimal_value(t) + 1 <= pow10(t.len()));
        assert(decimal_value(t) * 10 + 10 <= pow10(t.len()) * 10) by (nonlinear_arith)
            requires
                decimal_value(t) + 1 <= pow10(t.len()),
        ;
    }
}

proof fn lemma_pow10_monotone(a: nat, b: nat)
    requires
        a <= b,
    ensures
        pow10(a) <= pow10(b),
    decreases b,
{
    if a < b {
        lemma_pow10_monotone(a, (b - 1) as nat);
    }
}

proof fn lemma_pow10_17()
    ensures
        pow10(17) == 100_000_000_000_000_000,
{
    reveal_with_fuel(pow10, 18);
}

proof fn lemma_num_digits_le(v: nat)
    requires
        v >= 1,
    ensures
        num_digits(v) <= v,
    decreases v,
{
    if v >= 10 {
        lemma_num_digits_le(v / 10);
    }
}

/// Decoding the packed fields of an encoded offset gives back width, suffix and byte offset.
proof fn lemma_unpack(width: nat, suffix: nat, pos: nat)
    requires
        width < 32,
        suffix < SUFFIX_MODULUS,
        pos < POSITION_MODULUS,
    ensures
        packed_offset(width, suffix, pos) <= u128::MAX,
        width_field(packed_offset(width, suffix, pos) as u128) == width,
        suffix_field(packed_offset(width, suffix, pos) as u128) == suffix,
        position_field(packed_offset(width, suffix, pos) as u128) == pos,
{
    let o = packed_offset(width, suffix, pos);
    let low = suffix * (SUFFIX_UNIT as nat) + pos;
    assert(low < WIDTH_UNIT) by (nonlinear_arith)
        requires
            suffix < SUFFIX_MODULUS,
            pos < POSITION_MODULUS,
            low == suffix * (SUFFIX_UNIT as nat) + pos,
    ;
    assert(o <= u128::MAX) by (nonlinear_arith)
        requires
            width < 32,
            low < WIDTH_UNIT,
            o == width * (WIDTH_UNIT as nat) + low,
    ;
    lemma_fundamental_div_mod_converse(o as int, WIDTH_UNIT as int, width as int, low as int);
    let high = width * (SUFFIX_MODULUS as nat) + suffix;
    assert(o == high * (SUFFIX_UNIT as nat) + pos) by (nonlinear_arith)
        requires
            o == width * (WIDTH_UNIT as nat) + suffix * (SUFFIX_UNIT as nat) + pos,
            high == width * (SUFFIX_MODULUS as nat) + suffix,
    ;
    lemma_fundamental_div_mod_converse(o as int, SUFFIX_UNIT as int, high as int, pos as int);
    lemma_fundamental_div_mod_converse(
        high as int,
        SUFFIX_MODULUS as int,
        width as int,
        suffix as int,
    );
    let q = high * (POSITION_MODULUS as nat);
    assert(o == q * (POSITION_MODULUS as nat) + pos) by (nonlinear_arith)
        requires
            o == high * (SUFFIX_UNIT as nat) + pos,
            q == high * (POSITION_MODULUS as nat),
    ;
    lemma_fundamental_div_mod_converse(o as int, POSITION_MODULUS as int, q as int, pos as int);
}

/// Position round trip: packing a position whose suffix has 1 to 17 digits and unpacking
/// the result gives back the same file name, character for character (leading zeros
/// included), and the same byte offset.
pub proof fn lemma_position_round_trip(file: Seq<char>, pos: u32)
    requires
        last_dot(file) is Some,
        valid_suffix(suffix_of(file)),
    ensures
        encoded_offset(file, pos) <= u128::MAX,
        decoded_file(basename_of(file), encoded_offset(file, pos) as u128) == file,
        position_field(encoded_offset(file, pos) as u128) == pos,
{
    let t = suffix_of(file);
    let v = decimal_value(t);
    lemma_decimal_bound(t);
    lemma_pow10_monotone(t.len(), 17);
    lemma_pow10_17();
    lemma_unpack(t.len(), v, pos as nat);
    lemma_num_digits_within(t);
    lemma_fixed_digits_of_value(t);
    lemma_last_dot_bounds(file, file.len() as int);
    let i = last_dot(file)->0;
    assert(padded_decimal(v, t.len()) == t);
    assert(basename_of(file) + seq!['.'] + t =~= file) by {
        assert(file[i] == '.');
    }
}

/// File `f` belongs to the log family `base` and its suffix reads as a number.
pub open spec fn comparable_in(f: Seq<char>, base: Seq<char>) -> bool {
    &&& last_dot(f) is Some
    &&& basename_of(f) == base
    &&& comparable_suffix(suffix_of(f))
}

/// Within one log family, being at or after is transitive.
pub proof fn lemma_at_or_after_transitive(
    fa: Seq<char>,
    pa: u32,
    fb: Seq<char>,
    pb: u32,
    fc: Seq<char>,
    pc: u32,
    base: Seq<char>,
)
    requires
        comparable_in(fa, base),
        comparable_in(fb, base),
        comparable_in(fc, base),
        at_or_after(fa, pa, fb, pb),
        at_or_after(fb, pb, fc, pc),
    ensures
        at_or_after(fa, pa, fc, pc),
{
    let (va, vb, vc) = (
        decimal_value(suffix_of(fa)),
        decimal_value(suffix_of(fb)),
        decimal_value(suffix_of(fc)),
    );
    assert(va > vb || (va == vb && pa >= pb));
    assert(vb > vc || (vb == vc && pb >= pc));
}

/// File `f` belongs to the log family `base` whose suffixes have `width` digits.
pub open spec fn in_family(f: Seq<char>, base: Seq<char>, width: nat) -> bool {
    &&& last_dot(f) is Some
    &&& basename_of(f) == base
    &&& valid_suffix(suffix_of(f))
    &&& suffix_of(f).len() == width
}

/// Within one log family with a fixed suffix width, a position at or after another packs
/// into an offset at least as large.
pub proof fn lemma_order_matches_offsets(
    fa: Seq<char>,
    pa: u32,
    fb: Seq<char>,
    pb: u32,
    base: Seq<char>,
    width: nat,
)
    requires
        in_family(fa, base, width),
        in_family(fb, base, width),
        at_or_after(fa, pa, fb, pb),
    ensures
        encoded_offset(fa, pa) >= encoded_offset(fb, pb),
{
    let (sa, sb) = (suffix_of(fa), suffix_of(fb));
    let (va, vb) = (decimal_value(sa), decimal_value(sb));
    lemma_decimal_bound(sa);
    lemma_decimal_bound(sb);
    lemma_pow10_monotone(width, 17);
    lemma_pow10_17();
    if fa != fb {
        if va == vb {
            lemma_fixed_digits_of_value(sa);
            lemma_fixed_digits_of_value(sb);
            lemma_last_dot_bounds(fa, fa.len() as int);
            lemma_last_dot_bounds(fb, fb.len() as int);
            assert(basename_of(fa) + seq!['.'] + sa =~= fa);
            assert(basename_of(fb) + seq!['.'] + sb =~= fb);
        } else {
            assert(va > vb);
            assert(encoded_offset(fa, pa) >= encoded_offset(fb, pb)) by (nonlinear_arith)
                requires
                    va >= vb + 1,
                    encoded_offset(fa, pa) == width * (WIDTH_UNIT as nat) + va * (SUFFIX_UNIT as nat)
                        + pa as nat,
                    encoded_offset(fb, pb) == width * (WIDTH_UNIT as nat) + vb * (SUFFIX_UNIT as nat)
                        + pb as nat,
                    pb < POSITION_MODULUS,
            ;
        }
    }
}

proof fn lemma_last_dot_bounds(s: Seq<char>, n: int)
    requires
        0 <= n <= s.len(),
    ensures
        last_dot_before(s, n) matches Some(i) ==> 0 <= i < n && s[i] == '.',
        last_dot_before(s, n) matches Some(i) ==> forall|j: int| i < j < n ==> s[j] != '.',
        last_dot_before(s, n) is None ==> forall|j: int| 0 <= j < n ==> s[j] != '.',
    decreases n,
{
    if n > 0 {
        lemma_last_dot_bounds(s, n - 1);
    }
}

/// Index of the last `.` in `s`.
fn find_last_dot(s: &str) -> (r: Option<usize>)
    ensures
        r matches Some(i) ==> last_dot(s@) == Some(i as int),
        r is None ==> last_dot(s@) is None,
{
    let len = s.unicode_len();
    let mut i: usize = len;
    while i > 0
        invariant
            i <= len,
            len == s@.len(),
            last_dot(s@) == last_dot_before(s@, i as int),
        decreases i,
    {
        if s.get_char(i - 1) == '.' {
            return Some(i - 1);
        }
        i = i - 1;
    }
    None
}

/// The value of a string of at most 17 decimal digits, or `None` if a character is no digit.
fn parse_decimal(s: &str) -> (r: Option<u64>)
    requires
        s@.len() <= MAX_SUFFIX_WIDTH,
    ensures
        r is Some <==> all_digits(s@),
        r matches Some(v) ==> v == decimal_value(s@) && v < pow10(s@.len()),
{
    let len = s.unicode_len();
    let mut v: u64 = 0;
    let mut k: usize = 0;
    proof {
        lemma_pow10_17();
    }
    while k < len
        invariant
            k <= len,
            len == s@.len(),
            len <= MAX_SUFFIX_WIDTH,
            all_digits(s@.subrange(0, k as int)),
            v == decimal_value(s@.subrange(0, k as int)),
            v < pow10(k as nat),
            pow10(17) == 100_000_000_000_000_000,
        decreases len - k,
    {
        let c = s.get_char(k);
        if c < '0' || c > '9' {
            proof {
                assert(!is_digit(s@[k as int]));
            }
            return None;
        }
        let d = (c as u32 - '0' as u32) as u64;
        proof {
            lemma_pow10_monotone((k + 1) as nat, 17);
            assert(v * 10 + d < pow10((k + 1) as nat)) by (nonlinear_arith)
                requires
                    v < pow10(k as nat),
                    d < 10,
                    pow10((k + 1) as nat) == 10 * pow10(k as nat),
            ;
            let pre = s@.subrange(0, k as int);
            let next = s@.subrange(0, (k + 1) as int);
            assert(next.drop_last() =~= pre);
            assert(next.last() == c);
            assert(all_digits(next)) by {
                assert forall|j: int| 0 <= j < next.len() implies is_digit(#[trigger] next[j]) by {
                    if j < k {
                        assert(next[j] == pre[j]);
                    }
                }
            }
        }
        v = v * 10 + d;
        k = k + 1;
    }
    proof {
        assert(s@.subrange(0, len as int) =~= s@);
    }
    Some(v)
}

/// The one-character string for a decimal digit.
fn digit_str(d: u64) -> (r: &'static str)
    requires
        d < 10,
    ensures
        r@ == seq![digit_char(d as nat)],
{
    let digits = "0123456789";
    proof {
        reveal_strlit("0123456789");
    }
    let r = digits.substring_char(d as usize, d as usize + 1);
    assert(r@ =~= seq![digit_char(d as nat)]);
    r
}

spec fn repeated_div10(v: nat, k: nat) -> nat
    decreases k,
{
    if k == 0 {
        v
    } else {
        repeated_div10(v, (k - 1) as nat) / 10
    }
}

/// `v` in decimal with leading zeros up to `width` characters.
fn padded_decimal_string(v: u64, width: u64) -> (r: String)
    requires
        width < 32,
    ensures
        r@ == padded_decimal(v as nat, width as nat),
{
    let mut nd: u64 = 1;
    let mut t: u64 = v;
    while t >= 10
        invariant
            nd >= 1,
            nd + num_digits(t as nat) == num_digits(v as nat) + 1,
            t <= v,
        decreases t,
    {
        proof {
            lemma_num_digits_le(v as nat);
            assert(num_digits(t as nat) == 1 + num_digits((t / 10) as nat));
        }
        t = t / 10;
        nd = nd + 1;
    }
    let n: u64 = if width > nd {
        width
    } else {
        nd
    };
    assert(n == if width > num_digits(v as nat) {
        width as nat
    } else {
        num_digits(v as nat)
    });
    let mut quotients: Vec<u64> = Vec::new();
    let mut cur: u64 = v;
    let mut k: u64 = 0;
    while k < n
        invariant
            k <= n,
            n <= 32 || n == nd,
            quotients@.len() == k,
            cur == repeated_div10(v as nat, k as nat),
            forall|j: int| 0 <= j < k ==> quotients@[j] == repeated_div10(v as nat, j as nat),
        decreases n - k,
    {
        quotients.push(cur);
        cur = cur / 10;
        k = k + 1;
    }
    let mut out = String::new();
    let mut j: u64 = n;
    while j > 0
        invariant
            j <= n,
            quotients@.len() == n,
            forall|i: int| 0 <= i < n ==> quotients@[i] == repeated_div10(v as nat, i as nat),
            out@ == fixed_digits(repeated_div10(v as nat, j as nat), (n - j) as nat),
        decreases j,
    {
        let q = quotients[(j - 1) as usize];
        out.append(digit_str(q % 10));
        proof {
            assert(repeated_div10(v as nat, j as nat) == q / 10);
            assert(fixed_digits(q as nat, (n - j + 1) as nat) == fixed_digits(
                (q / 10) as nat,
                (n - j) as nat,
            ).push(digit_char((q % 10) as nat)));
        }
        j = j - 1;
    }
    out
}

impl BinlogPosition {
    /// Orders two positions of one log family: by suffix number, then by byte offset.
    /// Positions of different basenames, or with a suffix that is no number, are
    /// incomparable (`None`).
    pub fn partial_cmp(&self, other: &BinlogPosition) -> (r: Option<core::cmp::Ordering>)
        ensures
            r == compare_positions(
                self.binlog_file@,
                self.position,
                other.binlog_file@,
                other.position,
            ),
    {
        if self.binlog_file == other.binlog_file {
            return Some(compare_u64(self.position as u64, other.position as u64));
        }
        let a = self.binlog_file.as_str();
        let b = other.binlog_file.as_str();
        let (da, db) = match (find_last_dot(a), find_last_dot(b)) {
            (Some(da), Some(db)) => (da, db),
            _ => return None,
        };
        proof {
            lemma_last_dot_bounds(a@, a@.len() as int);
            lemma_last_dot_bounds(b@, b@.len() as int);
        }
        let base_a = a.substring_char(0, da);
        let base_b = b.substring_char(0, db);
        if !str_eq(base_a, base_b) {
            return None;
        }
        let la = a.unicode_len();
        let lb = b.unicode_len();
        let sa = a.substring_char(da + 1, la);
        let sb = b.substring_char(db + 1, lb);
        match (parse_u64(sa), parse_u64(sb)) {
            (Some(x), Some(y)) => if x == y {
                Some(compare_u64(self.position as u64, other.position as u64))
            } else {
                Some(compare_u64(x, y))
            },
            _ => None,
        }
    }

    /// Unpacks a replication offset: the file is the basename, a `.`, and the suffix field
    /// in decimal, zero-padded to the width field; the byte offset is the low 32 bits.
    pub fn from(val: &ReplicationOffset) -> (r: BinlogPosition)
        ensures
            r.binlog_file@ == decoded_file(val.replication_log_name@, val.offset),
            r.position == position_field(val.offset),
    {
        let width: u128 = val.offset / WIDTH_UNIT;
        let suffix: u64 = ((val.offset / SUFFIX_UNIT) % SUFFIX_MODULUS) as u64;
        let position: u32 = (val.offset % POSITION_MODULUS) as u32;
        let digits = padded_decimal_string(suffix, width as u64);
        let mut file = val.replication_log_name.clone();
        file.append(".");
        proof {
            reveal_strlit(".");
        }
        file.append(digits.as_str());
        assert(file@ =~= decoded_file(val.replication_log_name@, val.offset));
        BinlogPosition { binlog_file: file, position }
    }
}

impl ReplicationOffset {
    /// Packs a binlog position into a monotone 128-bit offset and the file's basename.
    /// Fails with `InvalidBinlogName` when the file name holds no `.`, and with
    /// `InvalidBinlogSuffix` when the part after the last `.` is not 1 to 17 decimal digits.
    pub fn try_from(value: &BinlogPosition) -> (r: Result<ReplicationOffset, ReplicationError>)
        ensures
            match r {
                Ok(o) => {
                    &&& last_dot(value.binlog_file@) is Some
                    &&& valid_suffix(suffix_of(value.binlog_file@))
                    &&& o.replication_log_name@ == basename_of(value.binlog_file@)
                    &&& o.offset == encoded_offset(value.binlog_file@, value.position)
                },
                Err(ReplicationError::InvalidBinlogName(f)) => {
                    &&& last_dot(value.binlog_file@) is None
                    &&& f@ == value.binlog_file@
                },
                Err(ReplicationError::InvalidBinlogSuffix(f)) => {
                    &&& last_dot(value.binlog_file@) is Some
                    &&& !valid_suffix(suffix_of(value.binlog_file@))
                    &&& f@ == value.binlog_file@
                },
                Err(_) => false,
            },
    {
        let file = value.binlog_file.as_str();
        let dot = match find_last_dot(file) {
            Some(d) => d,
            None => return Err(ReplicationError::InvalidBinlogName(value.binlog_file.clone())),
        };
        proof {
            lemma_last_dot_bounds(file@, file@.len() as int);
        }
        let len = file.unicode_len();
        let width = len - dot - 1;
        if width == 0 || width > MAX_SUFFIX_WIDTH {
            return Err(ReplicationError::InvalidBinlogSuffix(value.binlog_file.clone()));
        }
        let suffix = file.substring_char(dot + 1, len);
        let v = match parse_decimal(suffix) {
            Some(v) => v,
            None => return Err(ReplicationError::InvalidBinlogSuffix(value.binlog_file.clone())),
        };
        proof {
            lemma_pow10_monotone(width as nat, 17);
            lemma_pow10_17();
            lemma_unpack(width as nat, v as nat, value.position as nat);
        }
        let name = String::from_str(file.substring_char(0, dot));
        let offset = (width as u128) * WIDTH_UNIT + (v as u128) * SUFFIX_UNIT
            + (value.position as u128);
        Ok(ReplicationOffset { offset, replication_log_name: name })
    }
}

fn compare_u64(x: u64, y: u64) -> (r: core::cmp::Ordering)
    ensures
        r == compare_nat(x as nat, y as nat),
{
    if x < y {
        core::cmp::Ordering::Less
    } else if x == y {
        core::cmp::Ordering::Equal
    } else {
        core::cmp::Ordering::Greater
    }
}

fn str_eq(a: &str, b: &str) -> (r: bool)
    ensures
        r == (a@ == b@),
{
    let la = a.unicode_len();
    let lb = b.unicode_len();
    if la != lb {
        return false;
    }
    let mut i: usize = 0;
    while i < la
        invariant
            i <= la,
            la == a@.len(),
            lb == b@.len(),
            la == lb,
            a@.subrange(0, i as int) == b@.subrange(0, i as int),
        decreases la - i,
    {
        if a.get_char(i) != b.get_char(i) {
            return false;
        }
        proof {
            assert(a@.subrange(0, i + 1) =~= a@.subrange(0, i as int).push(a@[i as int]));
            assert(b@.subrange(0, i + 1) =~= b@.subrange(0, i as int).push(b@[i as int]));
        }
        i = i + 1;
    }
    proof {
        assert(a@ =~= a@.subrange(0, la as int));
        assert(b@ =~= b@.subrange(0, lb as int));
    }
    true
}

/// The value of a non-empty string of decimal digits that fits a `u64`, or `None`.
fn parse_u64(s: &str) -> (r: Option<u64>)
    ensures
        r is Some <==> comparable_suffix(s@),
        r matches Some(v) ==> v == decimal_value(s@),
{
    let len = s.unicode_len();
    if len == 0 {
        return None;
    }
    let mut v: u64 = 0;
    let mut k: usize = 0;
    while k < len
        invariant
            k <= len,
            len == s@.len(),
            all_digits(s@.subrange(0, k as int)),
            v == decimal_value(s@.subrange(0, k as int)),
        decreases len - k,
    {
        let c = s.get_char(k);
        let pre = Ghost(s@.subrange(0, k as int));
        let next = Ghost(s@.subrange(0, (k + 1) as int));
        proof {
            assert(next@.drop_last() =~= pre@);
        }
        if c < '0' || c > '9' {
            proof {
                assert(!is_digit(s@[k as int]));
            }
            return None;
        }
        let d = (c as u32 - '0' as u32) as u64;
        proof {
            assert(all_digits(next@)) by {
                assert forall|j: int| 0 <= j < next@.len() implies is_digit(#[trigger] next@[j]) by {
                    if j < k {
                        assert(next@[j] == pre@[j]);
                    }
                }
            }
        }
        if v > (u64::MAX - d) / 10 {
            proof {
                assert(v * 10 + d > u64::MAX) by (nonlinear_arith)
                    requires
                        v > (u64::MAX - d) / 10,
                        d < 10,
                ;
                assert(decimal_value(next@) == v * 10 + d);
                lemma_decimal_prefix_grows(s@, (k + 1) as nat);
            }
            return None;
        }
        v = v * 10 + d;
        k = k + 1;
    }
    proof {
        assert(s@.subrange(0, len as int) =~= s@);
    }
    Some(v)
}

/// A longer prefix of a digit string never denotes a smaller number.
proof fn lemma_decimal_prefix_grows(s: Seq<char>, k: nat)
    requires
        k <= s.len(),
        all_digits(s.subrange(0, k as int)),
    ensures
        all_digits(s) ==> decimal_value(s.subrange(0, k as int)) <= decimal_value(s),
    decreases s.len() - k,
{
    if k < s.len() && all_digits(s) {
        let p = s.subrange(0, k as int);
        let q = s.subrange(0, (k + 1) as int);
        assert(q.drop_last() =~= p);
        assert(all_digits(q)) by {
            assert forall|j: int| 0 <= j < q.len() implies is_digit(#[trigger] q[j]) by {
                assert(q[j] == s[j]);
            }
        }
        assert(decimal_value(q) >= decimal_value(p)) by (nonlinear_arith)
            requires
                decimal_value(q) == decimal_value(p) * 10 + digit_val(q.last()),
        ;
        lemma_decimal_prefix_grows(s, k + 1);
    } else if k == s.len() {
        assert(s.subrange(0, k as int) =~= s);
    }
}

} // verus!
