//! Rendering values as text for people to read: numbers in decimal, texts
//! in quotes, lists and maps in brackets.

use vstd::prelude::*;
use vstd::string::*;

verus! {

/// The text `text` in double quotes with its special characters escaped,
/// as the `Debug` form of `str` gives it.
pub uninterp spec fn debug_quoted(text: Seq<char>) -> Seq<char>;

/// Formats `text` with `{:?}`: the `Debug` form of `str`, whose result is
/// named here and not defined.
#[verifier::external_body]
pub(crate) fn quote(text: &str) -> (quoted: String)
    ensures
        quoted@ == debug_quoted(text@),
{
    format!("{:?}", text)
}

/// The character for the digit `d`, where `d < 10`.
pub open spec fn digit_char(d: nat) -> char {
    ((48 + d) as u8) as char
}

/// The decimal digits of `n`, most significant first.
pub open spec fn decimal_text(n: nat) -> Seq<char>
    decreases n,
{
    if n < 10 {
        seq![digit_char(n)]
    } else {
        decimal_text(n / 10).push(digit_char(n % 10))
    }
}

/// The texts of `items` with `separator` between each two of them.
pub open spec fn joined(items: Seq<Seq<char>>, separator: Seq<char>) -> Seq<char>
    decreases items.len(),
{
    if items.len() == 0 {
        Seq::<char>::empty()
    } else if items.len() == 1 {
        items[0]
    } else {
        joined(items.drop_last(), separator) + separator + items.last()
    }
}

/// A list of texts as `["a", "b"]`.
pub open spec fn debug_list(items: Seq<Seq<char>>) -> Seq<char> {
    "["@ + joined(items.map_values(|item: Seq<char>| debug_quoted(item)), ", "@) + "]"@
}

/// One entry of a map as `"key": "value"`.
pub open spec fn debug_entry(entry: (Seq<char>, Seq<char>)) -> Seq<char> {
    debug_quoted(entry.0) + ": "@ + debug_quoted(entry.1)
}

/// A map of texts as `{"a": "b", "c": "d"}`.
pub open spec fn debug_map(entries: Seq<(Seq<char>, Seq<char>)>) -> Seq<char> {
    "{"@ + joined(entries.map_values(|entry: (Seq<char>, Seq<char>)| debug_entry(entry)), ", "@)
        + "}"@
}

fn digit_text(d: u64) -> (text: &'static str)
    requires
        d < 10,
    ensures
        text@ == seq![digit_char(d as nat)],
{
    proof {
        reveal_strlit("0");
        reveal_strlit("1");
        reveal_strlit("2");
        reveal_strlit("3");
        reveal_strlit("4");
        reveal_strlit("5");
        reveal_strlit("6");
        reveal_strlit("7");
        reveal_strlit("8");
        reveal_strlit("9");
    }
    let text: &'static str = if d == 0 {
        "0"
    } else if d == 1 {
        "1"
    } else if d == 2 {
        "2"
    } else if d == 3 {
        "3"
    } else if d == 4 {
        "4"
    } else if d == 5 {
        "5"
    } else if d == 6 {
        "6"
    } else if d == 7 {
        "7"
    } else if d == 8 {
        "8"
    } else {
        "9"
    };
    assert(text@ =~= seq![digit_char(d as nat)]);
    text
}

/// Adds the decimal digits of `n` to `out`.
pub fn append_decimal(out: &mut String, n: u64)
    ensures
        final(out)@ == old(out)@ + decimal_text(n as nat),
    decreases n,
{
    if n >= 10 {
        append_decimal(out, n / 10);
    }
    let digit: &'static str = digit_text(n % 10);
    out.append(digit);
    assert(final(out)@ =~= old(out)@ + decimal_text(n as nat));
}

/// Adds the texts of `items` to `out`, with `separator` between each two.
pub fn append_joined(out: &mut String, items: &Vec<String>, separator: &str)
    ensures
        final(out)@ == old(out)@ + joined(items.deep_view(), separator@),
{
    let ghost all: Seq<Seq<char>> = items.deep_view();
    let mut i: usize = 0;
    assert(all.take(0) =~= Seq::<Seq<char>>::empty());
    assert(out@ =~= old(out)@ + joined(all.take(0), separator@));
    while i < items.len()
        invariant
            i <= items@.len(),
            all == items.deep_view(),
            out@ == old(out)@ + joined(all.take(i as int), separator@),
        decreases items@.len() - i,
    {
        if i > 0 {
            out.append(separator);
        }
        out.append(items[i].as_str());
        proof {
            let prefix: Seq<Seq<char>> = all.take(i + 1);
            assert(prefix.drop_last() =~= all.take(i as int));
            assert(prefix.last() == items@[i as int]@);
            if i == 0 {
                assert(prefix[0] == items@[0]@);
            }
            assert(out@ =~= old(out)@ + joined(prefix, separator@));
        }
        i += 1;
    }
    assert(all.take(i as int) =~= all);
}

/// Adds `items` to `out` as a list of quoted texts.
pub fn append_debug_list(out: &mut String, items: &Vec<String>)
    ensures
        final(out)@ == old(out)@ + debug_list(items.deep_view()),
{
    let ghost wanted: Seq<Seq<char>> = items.deep_view().map_values(
        |item: Seq<char>| debug_quoted(item),
    );
    let mut quoted: Vec<String> = Vec::new();
    let mut i: usize = 0;
    while i < items.len()
        invariant
            i <= items@.len(),
            wanted == items.deep_view().map_values(|item: Seq<char>| debug_quoted(item)),
            quoted.deep_view() =~= wanted.take(i as int),
        decreases items@.len() - i,
    {
        let ghost before: Seq<Seq<char>> = quoted.deep_view();
        let item: String = quote(items[i].as_str());
        assert(item@ == wanted[i as int]);
        quoted.push(item);
        assert(quoted.deep_view() =~= before.push(item@));
        i += 1;
    }
    assert(wanted.take(i as int) =~= wanted);
    out.append("[");
    append_joined(out, &quoted, ", ");
    out.append("]");
    assert(final(out)@ =~= old(out)@ + debug_list(items.deep_view()));
}

} // verus!
