use vstd::prelude::*;

verus! {

/// `String::push`: appends the character `c` to `s`.
#[verifier::external_body]
fn push_char(s: &mut String, c: char)
    ensures
        final(s)@ == old(s)@.push(c),
{
    s.push(c);
}

/// The character of decimal digit `d`.
pub open spec fn digit_char(d: nat) -> char {
    (48 + d) as char
}

/// The decimal numeral of `n`, without leading zeros.
pub open spec fn decimal(n: nat) -> Seq<char>
    decreases n,
{
    if n < 10 {
        seq![digit_char(n)]
    } else {
        decimal(n / 10).push(digit_char(n % 10))
    }
}

/// The decimal numeral of `v`, with a leading `-` when `v` is negative.
pub open spec fn signed_decimal(v: int) -> Seq<char> {
    if v < 0 {
        seq!['-'] + decimal((-v) as nat)
    } else {
        decimal(v as nat)
    }
}

/// The decimal numeral of `n`, with a `0` in front when it has a single digit.
pub open spec fn padded(n: nat) -> Seq<char> {
    if decimal(n).len() == 1 {
        seq!['0'] + decimal(n)
    } else {
        decimal(n)
    }
}

/// Hours added to the firmware clock before it is shown.
pub const CLOCK_OFFSET_HOURS: u8 = 0;

/// The hour shown for firmware hour `hour`: shifted by `CLOCK_OFFSET_HOURS` and
/// brought back by one day when that reaches 24.
pub open spec fn shown_hour(hour: u8) -> nat {
    let h = hour + CLOCK_OFFSET_HOURS;
    if h >= 24 {
        (h - 24) as nat
    } else {
        h as nat
    }
}

/// The clock text `hh:mm:ss` for the given firmware time.
pub open spec fn clock(hour: u8, minute: u8, second: u8) -> Seq<char> {
    padded(shown_hour(hour)) + seq![':'] + padded(minute as nat) + seq![':'] + padded(second as nat)
}

/// The three numerals of `values`, separated by commas.
pub open spec fn unsigned_triple(values: [u64; 3]) -> Seq<char> {
    decimal(values[0] as nat) + seq![','] + decimal(values[1] as nat) + seq![','] + decimal(
        values[2] as nat,
    )
}

/// The three signed numerals of `values`, separated by commas.
pub open spec fn signed_triple(values: [i32; 3]) -> Seq<char> {
    signed_decimal(values[0] as int) + seq![','] + signed_decimal(values[1] as int) + seq![',']
        + signed_decimal(values[2] as int)
}

proof fn lemma_decimal_len(n: nat)
    ensures
        decimal(n).len() >= 1,
        decimal(n).len() == 1 <==> n < 10,
    decreases n,
{
    if n >= 10 {
        lemma_decimal_len(n / 10);
    }
}

/// The number that the decimal numeral `s` denotes.
pub open spec fn numeral_value(s: Seq<char>) -> int
    decreases s.len(),
{
    if s.len() == 0 {
        0
    } else {
        numeral_value(s.drop_last()) * 10 + (s.last() as int - 48)
    }
}

/// The numeral of `n` denotes `n` and consists of decimal digits only.
pub proof fn lemma_decimal_value(n: nat)
    ensures
        numeral_value(decimal(n)) == n,
        forall|i: int| 0 <= i < decimal(n).len() ==> '0' <= #[trigger] decimal(n)[i] <= '9',
    decreases n,
{
    let d = (n % 10) as nat;
    assert(d < 10);
    assert(digit_char(d) as int == 48 + d);
    assert(decimal(n).last() == digit_char(d));
    assert(decimal(n).len() > 0);
    assert(numeral_value(decimal(n)) == numeral_value(decimal(n).drop_last()) * 10 + (48 + d - 48));
    if n >= 10 {
        lemma_decimal_value(n / 10);
        assert(decimal(n).drop_last() =~= decimal(n / 10));
        vstd::arithmetic::div_mod::lemma_fundamental_div_mod(n as int, 10);
    } else {
        assert(decimal(n).drop_last() =~= Seq::<char>::empty());
    }
}

/// The number that the signed decimal numeral `s` denotes.
pub open spec fn signed_numeral_value(s: Seq<char>) -> int {
    if s.len() > 0 && s[0] == '-' {
        -numeral_value(s.drop_first())
    } else {
        numeral_value(s)
    }
}

/// The signed numeral of `v` denotes `v`.
pub proof fn lemma_signed_decimal_value(v: int)
    ensures
        signed_numeral_value(signed_decimal(v)) == v,
{
    if v < 0 {
        lemma_decimal_value((-v) as nat);
        assert((seq!['-'] + decimal((-v) as nat)).drop_first() =~= decimal((-v) as nat));
    } else {
        lemma_decimal_value(v as nat);
        lemma_decimal_len(v as nat);
        assert('0' <= decimal(v as nat)[0] <= '9');
    }
}

/// The resolution text is three numerals separated by two commas, denoting
/// `values[0]`, `values[1]` and `values[2]` in that order.
pub proof fn lemma_unsigned_triple_fields(values: [u64; 3])
    ensures
        ({
            let t = unsigned_triple(values);
            let a = decimal(values[0] as nat).len() as int;
            let b = decimal(values[1] as nat).len() as int;
            &&& t[a] == ','
            &&& t[a + 1 + b] == ','
            &&& numeral_value(t.subrange(0, a)) == values[0]
            &&& numeral_value(t.subrange(a + 1, a + 1 + b)) == values[1]
            &&& numeral_value(t.subrange(a + b + 2, t.len() as int)) == values[2]
        }),
{
    let d0 = decimal(values[0] as nat);
    let d1 = decimal(values[1] as nat);
    let d2 = decimal(values[2] as nat);
    lemma_decimal_value(values[0] as nat);
    lemma_decimal_value(values[1] as nat);
    lemma_decimal_value(values[2] as nat);
    let t = unsigned_triple(values);
    let a = d0.len() as int;
    let b = d1.len() as int;
    assert(t.subrange(0, a) =~= d0);
    assert(t.subrange(a + 1, a + 1 + b) =~= d1);
    assert(t.subrange(a + b + 2, t.len() as int) =~= d2);
}

/// The movement text is three signed numerals separated by two commas,
/// denoting `values[0]`, `values[1]` and `values[2]` in that order.
pub proof fn lemma_signed_triple_fields(values: [i32; 3])
    ensures
        ({
            let t = signed_triple(values);
            let a = signed_decimal(values[0] as int).len() as int;
            let b = signed_decimal(values[1] as int).len() as int;
            &&& t[a] == ','
            &&& t[a + 1 + b] == ','
            &&& signed_numeral_value(t.subrange(0, a)) == values[0]
            &&& signed_numeral_value(t.subrange(a + 1, a + 1 + b)) == values[1]
            &&& signed_numeral_value(t.subrange(a + b + 2, t.len() as int)) == values[2]
        }),
{
    let d0 = signed_decimal(values[0] as int);
    let d1 = signed_decimal(values[1] as int);
    let d2 = signed_decimal(values[2] as int);
    lemma_signed_decimal_value(values[0] as int);
    lemma_signed_decimal_value(values[1] as int);
    lemma_signed_decimal_value(values[2] as int);
    let t = signed_triple(values);
    let a = d0.len() as int;
    let b = d1.len() as int;
    assert(t.subrange(0, a) =~= d0);
    assert(t.subrange(a + 1, a + 1 + b) =~= d1);
    assert(t.subrange(a + b + 2, t.len() as int) =~= d2);
}

/// For a firmware hour below 100 plus `CLOCK_OFFSET_HOURS` and minutes and
/// seconds below 100, the clock text is eight characters `hh:mm:ss`.
pub proof fn lemma_clock_shape(hour: u8, minute: u8, second: u8)
    requires
        shown_hour(hour) < 100,
        minute < 100,
        second < 100,
    ensures
        clock(hour, minute, second).len() == 8,
        clock(hour, minute, second)[2] == ':',
        clock(hour, minute, second)[5] == ':',
{
    lemma_padded_len(shown_hour(hour));
    lemma_padded_len(minute as nat);
    lemma_padded_len(second as nat);
}

proof fn lemma_padded_value(n: nat)
    requires
        n < 100,
    ensures
        numeral_value(padded(n)) == n,
{
    lemma_decimal_len(n);
    lemma_decimal_value(n);
    if n < 10 {
        let p = padded(n);
        assert(p =~= seq!['0', digit_char(n)]);
        assert(digit_char(n) as int == 48 + n);
        assert(p.drop_last() =~= seq!['0']);
        assert(seq!['0'].drop_last() =~= Seq::<char>::empty());
        assert(numeral_value(Seq::<char>::empty()) == 0);
        assert(seq!['0'].last() == '0');
        assert('0' as int == 48);
        assert(numeral_value(seq!['0']) == numeral_value(seq!['0'].drop_last()) * 10 + ('0' as int - 48));
        assert(numeral_value(seq!['0']) == 0);
    }
}

/// The fields of the clock are the numerals of the shown hour, the minute and
/// the second, in that order: characters 0 and 1 denote the firmware hour plus
/// `CLOCK_OFFSET_HOURS`, less 24 when that reaches 24; characters 3 and 4 the
/// minute; characters 6 and 7 the second.
pub proof fn lemma_clock_fields(hour: u8, minute: u8, second: u8)
    requires
        shown_hour(hour) < 100,
        minute < 100,
        second < 100,
    ensures
        numeral_value(clock(hour, minute, second).subrange(0, 2)) == hour + CLOCK_OFFSET_HOURS - if hour
            + CLOCK_OFFSET_HOURS >= 24 {
            24int
        } else {
            0int
        },
        numeral_value(clock(hour, minute, second).subrange(3, 5)) == minute,
        numeral_value(clock(hour, minute, second).subrange(6, 8)) == second,
{
    let h = shown_hour(hour);
    lemma_padded_len(h);
    lemma_padded_len(minute as nat);
    lemma_padded_len(second as nat);
    lemma_padded_value(h);
    lemma_padded_value(minute as nat);
    lemma_padded_value(second as nat);
    let c = clock(hour, minute, second);
    assert(c.subrange(0, 2) =~= padded(h));
    assert(c.subrange(3, 5) =~= padded(minute as nat));
    assert(c.subrange(6, 8) =~= padded(second as nat));
}

proof fn lemma_padded_len(n: nat)
    requires
        n < 100,
    ensures
        padded(n).len() == 2,
{
    lemma_decimal_len(n);
    if n >= 10 {
        lemma_decimal_len(n / 10);
    }
}

/// Appends the decimal numeral of `n` to `s`.
fn push_decimal(s: &mut String, n: u64)
    ensures
        final(s)@ == old(s)@ + decimal(n as nat),
    decreases n,
{
    if n >= 10 {
        push_decimal(s, n / 10);
    }
    let d: u8 = (n % 10) as u8;
    push_char(s, (48u8 + d) as char);
    assert(final(s)@ =~= old(s)@ + decimal(n as nat)) by {
        if n >= 10 {
            assert(decimal(n as nat) == decimal((n / 10) as nat).push(digit_char((n % 10) as nat)));
        }
    }
}

/// Appends the decimal numeral of `v`, signed, to `s`.
fn push_signed(s: &mut String, v: i32)
    ensures
        final(s)@ == old(s)@ + signed_decimal(v as int),
{
    if v < 0 {
        push_char(s, '-');
        let magnitude: u64 = (0i64 - v as i64) as u64;
        push_decimal(s, magnitude);
        assert(final(s)@ =~= old(s)@ + signed_decimal(v as int));
    } else {
        push_decimal(s, v as u64);
    }
}

/// Appends the decimal numeral of `n` to `s`, with a `0` in front when it has a
/// single digit.
fn push_padded(s: &mut String, n: u8)
    ensures
        final(s)@ == old(s)@ + padded(n as nat),
{
    proof {
        lemma_decimal_len(n as nat);
    }
    if n < 10 {
        push_char(s, '0');
    }
    push_decimal(s, n as u64);
    assert(final(s)@ =~= old(s)@ + padded(n as nat));
}

/// The clock text `hh:mm:ss` shown on the desktop for the firmware time
/// `hour:minute:second`, each field written with at least two digits.
pub fn clock_text(hour: u8, minute: u8, second: u8) -> (r: String)
    ensures
        r@ == clock(hour, minute, second),
{
    let mut shown: u8 = hour + CLOCK_OFFSET_HOURS;
    if shown >= 24 {
        shown = shown - 24;
    }
    let mut s = String::new();
    push_padded(&mut s, shown);
    push_char(&mut s, ':');
    push_padded(&mut s, minute);
    push_char(&mut s, ':');
    push_padded(&mut s, second);
    assert(s@ =~= clock(hour, minute, second));
    s
}

/// The pointer resolution as shown on the desktop: its three numbers separated
/// by commas.
pub fn resolution_text(resolution: [u64; 3]) -> (r: String)
    ensures
        r@ == unsigned_triple(resolution),
{
    let mut s = String::new();
    push_decimal(&mut s, resolution[0]);
    push_char(&mut s, ',');
    push_decimal(&mut s, resolution[1]);
    push_char(&mut s, ',');
    push_decimal(&mut s, resolution[2]);
    assert(s@ =~= unsigned_triple(resolution));
    s
}

/// A pointer movement as shown on the desktop: its three signed numbers
/// separated by commas.
pub fn movement_text(movement: [i32; 3]) -> (r: String)
    ensures
        r@ == signed_triple(movement),
{
    let mut s = String::new();
    push_signed(&mut s, movement[0]);
    push_char(&mut s, ',');
    push_signed(&mut s, movement[1]);
    push_char(&mut s, ',');
    push_signed(&mut s, movement[2]);
    assert(s@ =~= signed_triple(movement));
    s
}

/// The text of a file whose first bytes were read into `buffer` and whose read
/// position afterwards is `position`: one character per byte, of that byte's
/// code, for as many bytes as the position's lowest eight bits count.
pub fn file_text(buffer: &[u8], position: u64) -> (r: String)
    requires
        (position as u8) <= buffer@.len(),
    ensures
        r@ == Seq::new((position as u8) as nat, |i: int| buffer@[i] as char),
{
    let count: u8 = position as u8;
    let mut s = String::new();
    for i in 0..count as usize
        invariant
            count == position as u8,
            count <= buffer@.len(),
            s@ == Seq::new(i as nat, |j: int| buffer@[j] as char),
    {
        push_char(&mut s, buffer[i] as char);
        assert(s@ =~= Seq::new((i + 1) as nat, |j: int| buffer@[j] as char));
    }
    s
}

} // verus!
