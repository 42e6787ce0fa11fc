//! Decimal text read as a fixed-point number with eight implied decimals.
//!
//! The text is read byte by byte. Only the ten digits and the decimal point count; every other
//! byte is skipped. Digits before the first point form the whole part, digits after it the
//! fraction, of which the first eight are kept and missing ones are zero.
use vstd::prelude::*;

verus! {

/// How many decimals every price carries in memory.
pub const PRICE_DECIMALS: u32 = 8;

/// Ten to the power of `PRICE_DECIMALS`.
pub const PRICE_SCALE: u64 = 100_000_000;

const DOT: u8 = 0x2e;

const ZERO: u8 = 0x30;

const NINE: u8 = 0x39;

/// Whether `c` is one of the ten decimal digits.
pub open spec fn is_digit(c: char) -> bool {
    '0' <= c && c <= '9'
}

/// The decimal digits of `text` in order; every other character is skipped.
pub open spec fn digits(text: Seq<char>) -> Seq<nat>
    decreases text.len(),
{
    if text.len() == 0 {
        Seq::empty()
    } else if is_digit(text.last()) {
        digits(text.drop_last()).push((text.last() as int - '0' as int) as nat)
    } else {
        digits(text.drop_last())
    }
}

/// The number that the decimal digits `ds` write, most significant first.
pub open spec fn decimal(ds: Seq<nat>) -> nat
    decreases ds.len(),
{
    if ds.len() == 0 {
        0
    } else {
        decimal(ds.drop_last()) * 10 + ds.last()
    }
}

/// Ten to the power of `n`.
pub open spec fn pow10(n: nat) -> nat
    decreases n,
{
    if n == 0 {
        1
    } else {
        10 * pow10((n - 1) as nat)
    }
}

/// What stands before the first decimal point, or all of `text` where there is none.
pub open spec fn whole_part(text: Seq<char>) -> Seq<char> {
    match text.index_of_first('.') {
        Some(i) => text.take(i),
        None => text,
    }
}

/// What stands after the first decimal point, or nothing where there is none.
pub open spec fn fraction_part(text: Seq<char>) -> Seq<char> {
    match text.index_of_first('.') {
        Some(i) => text.skip(i + 1),
        None => Seq::empty(),
    }
}

/// The first eight of `ds`, filled up with zeros where there are fewer.
pub open spec fn eight_digits(ds: Seq<nat>) -> Seq<nat> {
    Seq::new(8, |i: int| if i < ds.len() { ds[i] } else { 0 })
}

/// The fixed-point number that `text` writes: its whole digits followed by exactly eight
/// fraction digits, read as one integer.
pub open spec fn fixed_point(text: Seq<char>) -> nat {
    decimal(digits(whole_part(text)) + eight_digits(digits(fraction_part(text))))
}


// ---- how the reader's running state relates to the statement above ----

/// What has been read so far.
ghost struct Scan {
    whole: Seq<nat>,
    fraction: Seq<nat>,
    dot: bool,
}

/// The state after one more character or byte with the given code.
spec fn scan_step(scan: Scan, code: int) -> Scan {
    if code == '.' as int {
        Scan { dot: true, ..scan }
    } else if '0' as int <= code <= '9' as int {
        let digit = (code - '0' as int) as nat;
        if scan.dot {
            Scan { fraction: scan.fraction.push(digit), ..scan }
        } else {
            Scan { whole: scan.whole.push(digit), ..scan }
        }
    } else {
        scan
    }
}

spec fn scan_start() -> Scan {
    Scan { whole: Seq::empty(), fraction: Seq::empty(), dot: false }
}

spec fn scan_text(text: Seq<char>) -> Scan
    decreases text.len(),
{
    if text.len() == 0 {
        scan_start()
    } else {
        scan_step(scan_text(text.drop_last()), text.last() as int)
    }
}

spec fn scan_bytes(bytes: Seq<u8>) -> Scan
    decreases bytes.len(),
{
    if bytes.len() == 0 {
        scan_start()
    } else {
        scan_step(scan_bytes(bytes.drop_last()), bytes.last() as int)
    }
}

/// How many fraction digits of the state count.
spec fn kept(scan: Scan) -> nat {
    if scan.fraction.len() < 8 { scan.fraction.len() } else { 8 }
}

/// The number that the digits kept so far write.
spec fn shown(scan: Scan) -> nat {
    decimal(scan.whole + scan.fraction.take(kept(scan) as int))
}

/// The number that the state stands for if the text ends here.
spec fn value(scan: Scan) -> nat {
    decimal(scan.whole + eight_digits(scan.fraction))
}

proof fn lemma_first_dot(text: Seq<char>, i: int)
    requires
        0 <= i < text.len(),
        text[i] == '.',
        forall|j: int| 0 <= j < i ==> text[j] != '.',
    ensures
        text.index_of_first('.') == Some(i),
{
    text.index_of_first_ensures('.');
    assert(text.contains('.'));
}

/// Reading character by character collects the digits of the two parts.
proof fn lemma_scan_text(text: Seq<char>)
    ensures
        scan_text(text).whole == digits(whole_part(text)),
        scan_text(text).fraction == digits(fraction_part(text)),
        scan_text(text).dot == text.contains('.'),
        !scan_text(text).dot ==> scan_text(text).fraction.len() == 0,
    decreases text.len(),
{
    text.index_of_first_ensures('.');
    if text.len() > 0 {
        let front = text.drop_last();
        let last = text.last();
        lemma_scan_text(front);
        front.index_of_first_ensures('.');
        if front.contains('.') {
            let i = front.index_of_first('.')->0;
            assert forall|j: int| 0 <= j < i implies text[j] != '.' by {
                assert(front[j] == text[j]);
            }
            assert(text[i] == '.');
            lemma_first_dot(text, i);
            assert(text.take(i) =~= front.take(i));
            assert(fraction_part(text).drop_last() =~= fraction_part(front));
            assert(fraction_part(text).last() == last);
        } else if last == '.' {
            let i = text.len() - 1;
            assert forall|j: int| 0 <= j < i implies text[j] != '.' by {
                assert(front[j] == text[j]);
            }
            lemma_first_dot(text, i);
            assert(text.take(i) =~= front);
            assert(fraction_part(text) =~= Seq::empty());
        } else {
            assert(!text.contains('.')) by {
                if text.contains('.') {
                    let j = text.index_of_first('.')->0;
                    assert(text[j] == '.');
                    assert(front[j] == '.');
                }
            }
            assert(whole_part(text).drop_last() =~= whole_part(front));
        }
    }
}

proof fn lemma_encode_push(text: Seq<char>, c: char)
    ensures
        vstd::utf8::encode_utf8(text.push(c)) == vstd::utf8::encode_utf8(text)
            + vstd::utf8::encode_scalar(c as u32),
    decreases text.len(),
{
    let longer = text.push(c);
    if text.len() == 0 {
        assert(longer.drop_first() =~= Seq::<char>::empty());
        assert(vstd::utf8::encode_utf8(longer.drop_first()) =~= Seq::<u8>::empty());
        assert(vstd::utf8::encode_utf8(longer) =~= vstd::utf8::encode_scalar(c as u32));
        assert(vstd::utf8::encode_utf8(text) =~= Seq::<u8>::empty());
        assert(vstd::utf8::encode_utf8(text) + vstd::utf8::encode_scalar(c as u32)
            =~= vstd::utf8::encode_scalar(c as u32));
    } else {
        lemma_encode_push(text.drop_first(), c);
        assert(longer.drop_first() =~= text.drop_first().push(c));
        assert(longer[0] == text[0]);
        assert(vstd::utf8::encode_utf8(longer) =~= vstd::utf8::encode_utf8(text)
            + vstd::utf8::encode_scalar(c as u32));
    }
}

/// Bytes outside ASCII leave the state as it is.
proof fn lemma_scan_high_bytes(front: Seq<u8>, tail: Seq<u8>)
    requires
        forall|i: int| 0 <= i < tail.len() ==> tail[i] >= 0x80,
    ensures
        scan_bytes(front + tail) == scan_bytes(front),
    decreases tail.len(),
{
    if tail.len() == 0 {
        assert(front + tail =~= front);
    } else {
        lemma_scan_high_bytes(front, tail.drop_last());
        assert((front + tail).drop_last() =~= front + tail.drop_last());
        assert((front + tail).last() == tail.last());
    }
}

proof fn lemma_encode_scalar_bytes(v: u32)
    requires
        vstd::utf8::is_scalar(v),
    ensures
        v < 0x80 ==> vstd::utf8::encode_scalar(v) =~= seq![v as u8],
        v >= 0x80 ==> forall|i: int|
            0 <= i < vstd::utf8::encode_scalar(v).len() ==> vstd::utf8::encode_scalar(v)[i] >= 0x80,
{
    assert(v < 0x80 ==> (v & 0x7F) as u8 == v as u8) by (bit_vector);
    assert((0xC0 | ((v >> 6) & 0x1F) as u8) >= 0x80u8) by (bit_vector);
    assert((0xE0 | ((v >> 12) & 0x0F) as u8) >= 0x80u8) by (bit_vector);
    assert((0xF0 | ((v >> 18) & 0x7) as u8) >= 0x80u8) by (bit_vector);
    assert((0x80 | (v & 0x3F) as u8) >= 0x80u8) by (bit_vector);
    assert((0x80 | ((v >> 6) & 0x3F) as u8) >= 0x80u8) by (bit_vector);
    assert((0x80 | ((v >> 12) & 0x3F) as u8) >= 0x80u8) by (bit_vector);
}

/// Reading the UTF-8 bytes of a text collects the same as reading its characters.
proof fn lemma_scan_utf8(text: Seq<char>)
    ensures
        scan_bytes(vstd::utf8::encode_utf8(text)) == scan_text(text),
    decreases text.len(),
{
    if text.len() > 0 {
        let front = text.drop_last();
        let last = text.last();
        let code = last as u32;
        lemma_scan_utf8(front);
        lemma_encode_push(front, last);
        assert(front.push(last) =~= text);
        vstd::utf8::char_is_scalar(last);
        vstd::utf8::char_u32_cast(last, code);
        lemma_encode_scalar_bytes(code);
        let bytes = vstd::utf8::encode_utf8(front);
        let tail = vstd::utf8::encode_scalar(code);
        if code < 0x80 {
            assert((bytes + tail).drop_last() =~= bytes);
            assert((bytes + tail).last() == code as u8);
            assert((bytes + tail).last() as int == last as int);
        } else {
            lemma_scan_high_bytes(bytes, tail);
        }
    }
}

/// More digits behind `front` scale it and add what they write.
proof fn lemma_decimal_concat(front: Seq<nat>, tail: Seq<nat>)
    ensures
        decimal(front + tail) == decimal(front) * pow10(tail.len()) + decimal(tail),
    decreases tail.len(),
{
    if tail.len() == 0 {
        assert(front + tail =~= front);
        assert(pow10(0) == 1 && decimal(tail) == 0);
    } else {
        let shorter = tail.drop_last();
        lemma_decimal_concat(front, shorter);
        assert((front + tail).drop_last() =~= front + shorter);
        assert((front + tail).last() == tail.last());
        let head = decimal(front);
        let scale = pow10(shorter.len());
        assert(tail.len() - 1 == shorter.len());
        assert(pow10(tail.len()) == 10 * scale);
        assert(head * (10 * scale) == (head * scale) * 10) by (nonlinear_arith);
    }
}

proof fn lemma_decimal_zeros(ds: Seq<nat>)
    requires
        forall|i: int| 0 <= i < ds.len() ==> ds[i] == 0,
    ensures
        decimal(ds) == 0,
    decreases ds.len(),
{
    if ds.len() > 0 {
        lemma_decimal_zeros(ds.drop_last());
    }
}

proof fn lemma_decimal_ordered(low: Seq<nat>, high: Seq<nat>)
    requires
        low.len() == high.len(),
        forall|i: int| 0 <= i < low.len() ==> low[i] <= high[i],
    ensures
        decimal(low) <= decimal(high),
    decreases low.len(),
{
    if low.len() > 0 {
        lemma_decimal_ordered(low.drop_last(), high.drop_last());
    }
}

/// The missing fraction digits scale what is shown.
proof fn lemma_value_of_shown(scan: Scan)
    ensures
        value(scan) == shown(scan) * pow10((8 - kept(scan)) as nat),
        shown(scan) <= value(scan),
{
    let k = kept(scan);
    let front = scan.whole + scan.fraction.take(k as int);
    let zeros = eight_digits(scan.fraction).skip(k as int);
    lemma_decimal_concat(front, zeros);
    lemma_decimal_zeros(zeros);
    assert(front + zeros =~= scan.whole + eight_digits(scan.fraction));
    lemma_pow10_positive((8 - k) as nat);
    let n = shown(scan);
    let scale = pow10((8 - k) as nat);
    assert(n <= n * scale) by (nonlinear_arith)
        requires
            scale >= 1,
    ;
}

proof fn lemma_pow10_positive(n: nat)
    ensures
        pow10(n) >= 1,
    decreases n,
{
    if n > 0 {
        lemma_pow10_positive((n - 1) as nat);
    }
}

/// Reading on never makes the number smaller.
proof fn lemma_value_grows(scan: Scan, code: int)
    ensures
        value(scan) <= value(scan_step(scan, code)),
{
    let next = scan_step(scan, code);
    let fraction = eight_digits(scan.fraction);
    let next_fraction = eight_digits(next.fraction);
    lemma_decimal_concat(scan.whole, fraction);
    lemma_decimal_concat(next.whole, next_fraction);
    lemma_decimal_ordered(fraction, next_fraction);
    if next.whole != scan.whole {
        assert(next.whole.drop_last() =~= scan.whole);
    }
    let low = decimal(scan.whole);
    let high = decimal(next.whole);
    let scale = pow10(8);
    assert(low * scale <= high * scale) by (nonlinear_arith)
        requires
            low <= high,
    ;
}

proof fn lemma_value_of_prefix(bytes: Seq<u8>, i: int)
    requires
        0 <= i <= bytes.len(),
    ensures
        value(scan_bytes(bytes.take(i))) <= value(scan_bytes(bytes)),
    decreases bytes.len() - i,
{
    if i == bytes.len() {
        assert(bytes.take(i) =~= bytes);
    } else {
        let longer = bytes.take(i + 1);
        assert(longer.drop_last() =~= bytes.take(i));
        lemma_value_grows(scan_bytes(bytes.take(i)), longer.last() as int);
        lemma_value_of_prefix(bytes, i + 1);
    }
}

/// One more kept digit extends what is shown; one that is dropped does not.
proof fn lemma_shown_step(scan: Scan, code: int)
    requires
        !scan.dot ==> scan.fraction.len() == 0,
    ensures
        ({
            let next = scan_step(scan, code);
            let digit = '0' as int <= code <= '9' as int;
            &&& !next.dot ==> next.fraction.len() == 0
            &&& digit && (!scan.dot || kept(scan) < 8) ==> shown(next) == shown(scan) * 10 + (code
                - '0' as int)
            &&& !digit || (scan.dot && kept(scan) == 8) ==> shown(next) == shown(scan)
            &&& kept(next) == if digit && scan.dot && kept(scan) < 8 {
                kept(scan) + 1
            } else {
                kept(scan)
            }
        }),
{
    let next = scan_step(scan, code);
    let before = scan.whole + scan.fraction.take(kept(scan) as int);
    let after = next.whole + next.fraction.take(kept(next) as int);
    if '0' as int <= code <= '9' as int {
        if !scan.dot || kept(scan) < 8 {
            assert(after.drop_last() =~= before);
            assert(after.last() == (code - '0' as int) as nat);
        } else {
            assert(after =~= before);
        }
    } else {
        assert(after =~= before);
    }
}

/// Reads `text` as a fixed-point number: the number where it fits in 64 bits, nothing where it
/// does not.
pub fn read_fixed_point(text: &str) -> (r: Option<u64>)
    ensures
        r == if fixed_point(text@) <= u64::MAX {
            Some(fixed_point(text@) as u64)
        } else {
            None
        },
{
    let bytes = text.as_bytes();
    let ghost all = scan_bytes(bytes@);
    proof {
        lemma_scan_utf8(text@);
        lemma_scan_text(text@);
        assert(value(all) == fixed_point(text@));
        assert(bytes@.take(0) =~= Seq::<u8>::empty());
    }
    let mut res: u64 = 0;
    let mut has_dot = false;
    let mut digits_after_dot: u32 = 0;
    let mut i: usize = 0;
    while i < bytes.len()
        invariant
            i <= bytes.len(),
            all == scan_bytes(bytes@),
            value(all) == fixed_point(text@),
            res == shown(scan_bytes(bytes@.take(i as int))),
            has_dot == scan_bytes(bytes@.take(i as int)).dot,
            digits_after_dot == kept(scan_bytes(bytes@.take(i as int))),
            !has_dot ==> scan_bytes(bytes@.take(i as int)).fraction.len() == 0,
        decreases bytes.len() - i,
    {
        let b = bytes[i];
        let ghost scan = scan_bytes(bytes@.take(i as int));
        let ghost next = scan_step(scan, b as int);
        proof {
            assert(bytes@.take(i + 1).drop_last() =~= bytes@.take(i as int));
            assert(bytes@.take(i + 1).last() == b);
            assert(scan_bytes(bytes@.take(i + 1)) == next);
            lemma_shown_step(scan, b as int);
            lemma_value_of_shown(next);
            lemma_value_of_prefix(bytes@, i + 1);
        }
        if b == DOT {
            has_dot = true;
        } else if b >= ZERO && b <= NINE {
            if !has_dot || digits_after_dot < PRICE_DECIMALS {
                let digit: u64 = (b - ZERO) as u64;
                res = match res.checked_mul(10) {
                    Some(tens) => match tens.checked_add(digit) {
                        Some(sum) => sum,
                        None => return None,
                    },
                    None => return None,
                };
                if has_dot {
                    digits_after_dot = digits_after_dot + 1;
                }
            }
        }
        i = i + 1;
    }
    proof {
        assert(bytes@.take(i as int) =~= bytes@);
        lemma_value_of_shown(all);
    }
    while digits_after_dot < PRICE_DECIMALS
        invariant
            digits_after_dot <= PRICE_DECIMALS,
            fixed_point(text@) == res * pow10((8 - digits_after_dot) as nat),
        decreases PRICE_DECIMALS - digits_after_dot,
    {
        proof {
            let rest = pow10((8 - digits_after_dot - 1) as nat);
            let n = res as int;
            lemma_pow10_positive((8 - digits_after_dot - 1) as nat);
            assert(n * (10 * rest) == (n * 10) * rest) by (nonlinear_arith);
            assert(n * 10 <= (n * 10) * rest) by (nonlinear_arith)
                requires
                    rest >= 1,
                    n >= 0,
            ;
        }
        res = match res.checked_mul(10) {
            Some(tens) => tens,
            None => return None,
        };
        digits_after_dot = digits_after_dot + 1;
    }
    proof {
        let scale = pow10((8 - digits_after_dot) as nat);
        assert(scale == 1);
        assert(res * scale == res) by (nonlinear_arith)
            requires
                scale == 1,
        ;
    }
    Some(res)
}

// ---- laws of the reading ----

proof fn lemma_fixed_point_is_value(text: Seq<char>)
    ensures
        fixed_point(text) == value(scan_text(text)),
{
    lemma_scan_text(text);
}

/// A text with a decimal point is its whole part scaled by ten to the eighth, plus its eight
/// fraction digits. A text without one is its digits scaled alike.
pub proof fn law_eight_implied_decimals(text: Seq<char>)
    ensures
        fixed_point(text) == decimal(digits(whole_part(text))) * PRICE_SCALE + decimal(
            eight_digits(digits(fraction_part(text))),
        ),
        !text.contains('.') ==> fixed_point(text) == decimal(digits(text)) * PRICE_SCALE,
{
    let whole = digits(whole_part(text));
    let fraction = eight_digits(digits(fraction_part(text)));
    lemma_decimal_concat(whole, fraction);
    assert(pow10(8) == PRICE_SCALE) by {
        reveal_with_fuel(pow10, 9);
    }
    text.index_of_first_ensures('.');
    if !text.contains('.') {
        lemma_decimal_zeros(fraction);
    }
}

/// Once eight fraction digits have been read, what follows them does not count.
pub proof fn law_further_decimals_are_cut_off(text: Seq<char>, more: Seq<char>)
    requires
        text.contains('.'),
        digits(fraction_part(text)).len() >= 8,
    ensures
        fixed_point(text + more) == fixed_point(text),
    decreases more.len(),
{
    if more.len() == 0 {
        assert(text + more =~= text);
    } else {
        let shorter = more.drop_last();
        law_further_decimals_are_cut_off(text, shorter);
        lemma_scan_text(text);
        lemma_fixed_point_is_value(text + shorter);
        lemma_fixed_point_is_value(text + more);
        lemma_scan_keeps_fraction(text, shorter);
        let before = scan_text(text + shorter);
        assert((text + more).drop_last() =~= text + shorter);
        let after = scan_step(before, more.last() as int);
        assert(scan_text(text + more) == after);
        assert(eight_digits(after.fraction) =~= eight_digits(before.fraction));
    }
}

proof fn lemma_scan_keeps_fraction(text: Seq<char>, more: Seq<char>)
    ensures
        scan_text(text).dot ==> scan_text(text + more).dot,
        scan_text(text).fraction.len() <= scan_text(text + more).fraction.len(),
    decreases more.len(),
{
    if more.len() == 0 {
        assert(text + more =~= text);
    } else {
        lemma_scan_keeps_fraction(text, more.drop_last());
        assert((text + more).drop_last() =~= text + more.drop_last());
    }
}

/// Zeros at the end of the fraction do not change the number.
pub proof fn law_trailing_zero_does_not_count(text: Seq<char>)
    requires
        text.contains('.'),
    ensures
        fixed_point(text.push('0')) == fixed_point(text),
{
    let longer = text.push('0');
    lemma_scan_text(text);
    lemma_fixed_point_is_value(text);
    lemma_fixed_point_is_value(longer);
    assert(longer.drop_last() =~= text);
    assert(eight_digits(scan_text(longer).fraction) =~= eight_digits(scan_text(text).fraction));
}

/// A character that is neither a digit nor a decimal point, a sign among them, does not count,
/// wherever it stands.
pub proof fn law_other_characters_do_not_count(before: Seq<char>, c: char, behind: Seq<char>)
    requires
        !is_digit(c),
        c != '.',
    ensures
        fixed_point(before.push(c) + behind) == fixed_point(before + behind),
{
    lemma_scan_skips(before, c, behind);
    lemma_fixed_point_is_value(before.push(c) + behind);
    lemma_fixed_point_is_value(before + behind);
}

proof fn lemma_scan_skips(before: Seq<char>, c: char, behind: Seq<char>)
    requires
        !is_digit(c),
        c != '.',
    ensures
        scan_text(before.push(c) + behind) == scan_text(before + behind),
    decreases behind.len(),
{
    let with = before.push(c) + behind;
    let without = before + behind;
    if behind.len() == 0 {
        assert(with.drop_last() =~= before);
        assert(without =~= before);
    } else {
        lemma_scan_skips(before, c, behind.drop_last());
        assert(with.drop_last() =~= before.push(c) + behind.drop_last());
        assert(without.drop_last() =~= before + behind.drop_last());
    }
}

/// All digits of `text` that count for the decimal it writes, however many decimals it has.
pub open spec fn all_digits(text: Seq<char>) -> Seq<nat> {
    digits(whole_part(text)) + digits(fraction_part(text))
}

/// How many decimals `text` has.
pub open spec fn decimals(text: Seq<char>) -> nat {
    digits(fraction_part(text)).len()
}

/// Whether the decimal that `a` writes is at most the one that `b` writes. Each is all its digits
/// over ten to the power of its decimals; both sides are multiplied out.
pub open spec fn at_most(a: Seq<char>, b: Seq<char>) -> bool {
    decimal(all_digits(a)) * pow10(decimals(b)) <= decimal(all_digits(b)) * pow10(decimals(a))
}

proof fn lemma_digits_are_small(text: Seq<char>)
    ensures
        forall|i: int| 0 <= i < digits(text).len() ==> (#[trigger] digits(text)[i]) < 10,
    decreases text.len(),
{
    if text.len() > 0 {
        let front = digits(text.drop_last());
        lemma_digits_are_small(text.drop_last());
        assert forall|i: int| 0 <= i < digits(text).len() implies (#[trigger] digits(text)[i])
            < 10 by {
            if i < front.len() {
                assert(digits(text)[i] == front[i]);
            }
        }
    }
}

proof fn lemma_decimal_bound(ds: Seq<nat>)
    requires
        forall|i: int| 0 <= i < ds.len() ==> (#[trigger] ds[i]) < 10,
    ensures
        decimal(ds) < pow10(ds.len()),
    decreases ds.len(),
{
    if ds.len() > 0 {
        lemma_decimal_bound(ds.drop_last());
    }
}

proof fn lemma_pow10_adds(a: nat, b: nat)
    ensures
        pow10(a + b) == pow10(a) * pow10(b),
    decreases a,
{
    let scale = pow10(b);
    if a == 0 {
        assert(1 * scale == scale) by (nonlinear_arith);
    } else {
        let rest = (a - 1) as nat;
        lemma_pow10_adds(rest, b);
        let less = pow10(rest);
        assert((a + b - 1) as nat == rest + b);
        assert(10 * (less * scale) == (10 * less) * scale) by (nonlinear_arith);
    }
}

/// The number read is the decimal that the text writes, cut off behind the eighth place: it is
/// the greatest one, in steps of the eighth place, that the decimal reaches.
pub proof fn law_reading_is_the_decimal_cut_off(text: Seq<char>)
    ensures
        fixed_point(text) * pow10(decimals(text)) <= decimal(all_digits(text)) * PRICE_SCALE,
        decimal(all_digits(text)) * PRICE_SCALE < (fixed_point(text) + 1) * pow10(decimals(text)),
{
    let whole = digits(whole_part(text));
    let fraction = digits(fraction_part(text));
    let n = fraction.len();
    let all = decimal(whole + fraction);
    let read = fixed_point(text);
    let scale = pow10(n);
    assert(pow10(8) == PRICE_SCALE) by {
        reveal_with_fuel(pow10, 9);
    }
    lemma_pow10_positive(n);
    if n <= 8 {
        let missing = (8 - n) as nat;
        let zeros = eight_digits(fraction).skip(n as int);
        lemma_decimal_concat(whole + fraction, zeros);
        lemma_decimal_zeros(zeros);
        assert((whole + fraction) + zeros =~= whole + eight_digits(fraction));
        lemma_pow10_adds(missing, n);
        let fill = pow10(missing);
        assert(read == all * fill);
        assert((all * fill) * scale == all * (fill * scale)) by (nonlinear_arith);
        assert((read + 1) * scale == read * scale + scale) by (nonlinear_arith);
    } else {
        let more = (n - 8) as nat;
        let rest = fraction.skip(8);
        lemma_decimal_concat(whole + fraction.take(8), rest);
        assert((whole + fraction.take(8)) + rest =~= whole + fraction);
        assert(fraction.take(8) =~= eight_digits(fraction));
        lemma_digits_are_small(fraction_part(text));
        lemma_decimal_bound(rest);
        lemma_pow10_adds(more, 8);
        let step = pow10(more);
        let eight = pow10(8);
        let left = decimal(rest);
        assert(all == read * step + left);
        assert(read * (step * eight) <= (read * step + left) * eight) by (nonlinear_arith)
            requires
                left >= 0,
                eight >= 1,
        ;
        assert((read * step + left) * eight < (read + 1) * (step * eight)) by (nonlinear_arith)
            requires
                left < step,
                eight >= 1,
        ;
    }
}

/// A larger decimal never reads as a smaller number.
pub proof fn law_larger_decimal_reads_no_smaller(a: Seq<char>, b: Seq<char>)
    requires
        at_most(a, b),
    ensures
        fixed_point(a) <= fixed_point(b),
{
    law_reading_is_the_decimal_cut_off(a);
    law_reading_is_the_decimal_cut_off(b);
    lemma_pow10_positive(decimals(a));
    lemma_pow10_positive(decimals(b));
    let (low, high) = (fixed_point(a) as int, fixed_point(b) as int);
    let (x, y) = (decimal(all_digits(a)) as int, decimal(all_digits(b)) as int);
    let (p, q) = (pow10(decimals(a)) as int, pow10(decimals(b)) as int);
    let eight = PRICE_SCALE as int;
    if low > high {
        assert((high + 1) * p <= low * p) by (nonlinear_arith)
            requires
                high + 1 <= low,
                p >= 1,
        ;
        assert(((high + 1) * p) * q <= (x * eight) * q) by (nonlinear_arith)
            requires
                (high + 1) * p <= x * eight,
                q >= 1,
        ;
        assert((x * q) * eight <= (y * p) * eight) by (nonlinear_arith)
            requires
                x * q <= y * p,
                eight >= 1,
        ;
        assert((y * eight) * p < ((high + 1) * q) * p) by (nonlinear_arith)
            requires
                y * eight < (high + 1) * q,
                p >= 1,
        ;
        assert((x * eight) * q == (x * q) * eight) by (nonlinear_arith);
        assert((y * p) * eight == (y * eight) * p) by (nonlinear_arith);
        assert(((high + 1) * p) * q == ((high + 1) * q) * p) by (nonlinear_arith);
    }
}

proof fn lemma_decimal_place(ds: Seq<nat>, k: int, d: nat)
    requires
        0 <= k < ds.len(),
        ds[k] == 0,
    ensures
        decimal(ds.update(k, d)) == decimal(ds) + d * pow10((ds.len() - 1 - k) as nat),
    decreases ds.len(),
{
    let after = ds.update(k, d);
    let end = ds.len() - 1;
    if k == end {
        assert(after.drop_last() =~= ds.drop_last());
        assert(d * pow10(0) == d) by (nonlinear_arith)
            requires
                pow10(0) == 1,
        ;
    } else {
        let front = ds.drop_last();
        lemma_decimal_place(front, k, d);
        assert(after.drop_last() =~= front.update(k, d));
        let scale = pow10((front.len() - 1 - k) as nat);
        assert(pow10((ds.len() - 1 - k) as nat) == 10 * scale);
        assert((d * scale) * 10 == d * (10 * scale)) by (nonlinear_arith);
    }
}

/// Nothing writes zero, and each further character adds what it is worth. A digit before the point
/// moves all others one place up. A digit after the point is worth its place, down to the eighth;
/// one behind that, and any other character, is worth nothing.
pub proof fn law_every_digit_is_worth_its_place(text: Seq<char>, c: char)
    ensures
        fixed_point(Seq::empty()) == 0,
        '0' <= c <= '9' && !text.contains('.') ==> fixed_point(text.push(c)) == 10 * fixed_point(
            text,
        ) + (c as int - '0' as int) * 100_000_000,
        '0' <= c <= '9' && text.contains('.') && decimals(text) < 8 ==> fixed_point(text.push(c))
            == fixed_point(text) + (c as int - '0' as int) * pow10((7 - decimals(text)) as nat),
        '0' <= c <= '9' && text.contains('.') && decimals(text) >= 8 ==> fixed_point(text.push(c))
            == fixed_point(text),
        !('0' <= c <= '9') ==> fixed_point(text.push(c)) == fixed_point(text),
{
    let none = Seq::<char>::empty();
    lemma_scan_text(none);
    lemma_fixed_point_is_value(none);
    lemma_decimal_zeros(Seq::<nat>::empty() + eight_digits(Seq::<nat>::empty()));
    let longer = text.push(c);
    let scan = scan_text(text);
    let next = scan_text(longer);
    lemma_scan_text(text);
    lemma_fixed_point_is_value(text);
    lemma_fixed_point_is_value(longer);
    assert(longer.drop_last() =~= text);
    assert(next == scan_step(scan, c as int));
    lemma_decimal_concat(scan.whole, eight_digits(scan.fraction));
    lemma_decimal_concat(next.whole, eight_digits(next.fraction));
    assert(pow10(8) == 100_000_000) by {
        reveal_with_fuel(pow10, 9);
    }
    if '0' <= c <= '9' {
        let d = (c as int - '0' as int) as nat;
        if !scan.dot {
            lemma_decimal_zeros(eight_digits(scan.fraction));
            assert(next.whole.drop_last() =~= scan.whole);
            assert(next.fraction == scan.fraction);
            let w = decimal(scan.whole);
            let eight = pow10(8);
            assert(decimal(next.whole) == w * 10 + d);
            assert((w * 10 + d) * eight == 10 * (w * eight) + d * eight) by (nonlinear_arith);
            assert(d * eight == d * 100_000_000) by (nonlinear_arith)
                requires
                    eight == 100_000_000,
            ;
        } else if scan.fraction.len() < 8 {
            let k = scan.fraction.len() as int;
            assert(eight_digits(next.fraction) =~= eight_digits(scan.fraction).update(k, d));
            lemma_decimal_place(eight_digits(scan.fraction), k, d);
        } else {
            assert(eight_digits(next.fraction) =~= eight_digits(scan.fraction));
        }
    }
}

/// The decimals of a text are the digits behind its first point, and a power of ten is one zero
/// longer than the one before it.
pub proof fn law_decimals_are_counted(text: Seq<char>, c: char, n: nat)
    ensures
        decimals(Seq::empty()) == 0,
        decimals(text.push(c)) == if text.contains('.') && '0' <= c <= '9' {
            decimals(text) + 1
        } else {
            decimals(text)
        },
        pow10(0) == 1,
        pow10(n + 1) == 10 * pow10(n),
{
    let none = Seq::<char>::empty();
    lemma_scan_text(none);
    lemma_scan_text(text);
    lemma_scan_text(text.push(c));
    assert(text.push(c).drop_last() =~= text);
}

} // verus!
