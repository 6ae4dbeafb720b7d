//! How the engine writes values and lists when it prints plans and
//! expressions: decimal integers, comma-separated lists, and quoted names.

use vstd::prelude::*;

verus! {

/// The character for a decimal digit.
pub open spec fn digit_char(d: nat) -> char {
    (d + 48) as char
}

/// The decimal digits of `n`, most significant first, with no leading zero.
pub open spec fn decimal(n: nat) -> Seq<char>
    decreases n,
{
    if n < 10 {
        seq![digit_char(n)]
    } else {
        decimal(n / 10).push(digit_char(n % 10))
    }
}

/// An integer in decimal, with a leading `-` when negative.
pub open spec fn int_text(x: int) -> Seq<char> {
    if x < 0 {
        seq!['-'] + decimal((-x) as nat)
    } else {
        decimal(x as nat)
    }
}

/// Items written one after another with `sep` between each two.
pub open spec fn joined(items: Seq<Seq<char>>, sep: Seq<char>) -> Seq<char>
    decreases items.len(),
{
    if items.len() == 0 {
        Seq::empty()
    } else if items.len() == 1 {
        items[0]
    } else {
        joined(items.drop_last(), sep) + sep + items.last()
    }
}

/// What Rust's `Debug` writes for the string `s`: `s` between double
/// quotes, with the escapes of `str::escape_debug`.
pub uninterp spec fn debug_quoted(s: Seq<char>) -> Seq<char>;

/// `<str as Debug>::fmt`: the string between double quotes, escaped as
/// Rust escapes it; the result is named by `debug_quoted`.
#[verifier::external_body]
pub(crate) fn quote(s: &str) -> (q: String)
    ensures
        q@ == debug_quoted(s@),
{
    format!("{:?}", s)
}

/// Append one character (`String::push`).
#[verifier::external_body]
pub(crate) fn push_char(s: &mut String, c: char)
    ensures
        final(s)@ == old(s)@.push(c),
{
    s.push(c);
}

/// Append a string to another.
pub fn push_text(s: &mut String, t: &String)
    ensures
        final(s)@ == old(s)@ + t@,
{
    s.append(t.as_str());
}

/// The character for digit `d`.
fn digit(d: u64) -> (c: char)
    requires
        d < 10,
    ensures
        c == digit_char(d as nat),
{
    let b: u8 = 48u8 + (d as u8);
    b as char
}

/// `n` in decimal.
pub fn u64_text(n: u64) -> (s: String)
    ensures
        s@ == decimal(n as nat),
    decreases n,
{
    if n < 10 {
        let mut s = String::new();
        push_char(&mut s, digit(n));
        assert(s@ =~= decimal(n as nat));
        s
    } else {
        let mut s = u64_text(n / 10);
        push_char(&mut s, digit(n % 10));
        s
    }
}

/// `x` in decimal, with a leading `-` when negative.
pub fn i64_text(x: i64) -> (s: String)
    ensures
        s@ == int_text(x as int),
{
    if x < 0 {
        let magnitude: u64 = if x == i64::MIN {
            9223372036854775808u64
        } else {
            (-x) as u64
        };
        let digits = u64_text(magnitude);
        let mut s = String::new();
        push_char(&mut s, '-');
        push_text(&mut s, &digits);
        assert(s@ =~= int_text(x as int));
        s
    } else {
        u64_text(x as u64)
    }
}

/// The items written one after another with `sep` between each two.
pub fn join(items: &Vec<String>, sep: &str) -> (s: String)
    ensures
        s@ == joined(Seq::new(items@.len(), |i: int| items@[i]@), sep@),
{
    let ghost views = Seq::new(items@.len(), |i: int| items@[i]@);
    let mut s = String::new();
    let mut i: usize = 0;
    while i < items.len()
        invariant
            i <= items@.len(),
            views == Seq::new(items@.len(), |j: int| items@[j]@),
            s@ == joined(views.take(i as int), sep@),
        decreases items@.len() - i,
    {
        assert(views.take(i + 1).drop_last() =~= views.take(i as int));
        if i > 0 {
            s.append(sep);
        } else {
            assert(views.take(1) =~= seq![views[0]]);
        }
        push_text(&mut s, &items[i]);
        i = i + 1;
    }
    assert(views.take(items@.len() as int) =~= views);
    s
}

} // verus!
