use vstd::prelude::*;
use vstd::std_specs::iter::IteratorSpec;

verus! {

/// Relies on `String::push`: appends one character to the string.
#[verifier::external_body]
pub(crate) fn push_char(text: &mut String, c: char)
    ensures
        final(text)@ == old(text)@.push(c),
{
    text.push(c);
}

/// Returns an owned copy of a string slice.
pub fn s(text: &str) -> (r: String)
    ensures
        r@ == text@,
{
    text.to_owned()
}

/// The characters of a string slice, in order.
pub fn chars_of(text: &str) -> (r: Vec<char>)
    ensures
        r@ == text@,
{
    let mut out: Vec<char> = Vec::new();
    let mut it = text.chars();
    proof {
        broadcast use vstd::string::group_string_axioms;
    }
    assert(it.remaining() == text@);
    loop
        invariant
            out@ + it.remaining() == text@,
            it.obeys_prophetic_iter_laws(),
            it.decrease() is Some,
        ensures
            out@ == text@,
        decreases it.decrease()->0,
    {
        let c = it.next();
        proof {
            broadcast use vstd::string::group_string_axioms;
        }
        match c {
            Some(ch) => {
                out.push(ch);
                assert(out@ + it.remaining() =~= text@);
            },
            None => {
                assert(out@ =~= text@);
                break ;
            },
        }
    }
    out
}

/// The characters `vec[start..end]` as a string.
pub fn char_range_to_string(vec: &Vec<char>, start: usize, end: usize) -> (r: String)
    requires
        start <= end <= vec@.len(),
    ensures
        r@ == vec@.subrange(start as int, end as int),
{
    let mut out = String::new();
    let mut i: usize = start;
    while i < end
        invariant
            start <= i <= end <= vec@.len(),
            out@ == vec@.subrange(start as int, i as int),
        decreases end - i,
    {
        push_char(&mut out, vec[i]);
        i = i + 1;
        assert(out@ =~= vec@.subrange(start as int, i as int));
    }
    out
}

/// The decimal digit character for `d < 10`.
pub open spec fn digit_char(d: nat) -> char {
    ((48 + d) as u8) as char
}

/// The decimal text of a natural number.
pub open spec fn decimal_text(n: nat) -> Seq<char>
    decreases n,
{
    if n < 10 {
        seq![digit_char(n)]
    } else {
        decimal_text(n / 10).push(digit_char(n % 10))
    }
}

/// The decimal text of `n`.
pub fn decimal(n: usize) -> (r: String)
    ensures
        r@ == decimal_text(n as nat),
    decreases n,
{
    if n < 10 {
        let mut out = String::new();
        push_char(&mut out, ((48 + n) as u8) as char);
        assert(out@ =~= decimal_text(n as nat));
        out
    } else {
        let mut out = decimal(n / 10);
        push_char(&mut out, ((48 + n % 10) as u8) as char);
        out
    }
}

/// Relies on `format!` with the `Debug` formatting of `T`.
#[verifier::external_body]
fn debug_text<T: std::fmt::Debug>(item: &T) -> String {
    format!("{:?}", item)
}

/// The parts in order, each followed by a newline.
pub open spec fn joined_lines(parts: Seq<Seq<char>>) -> Seq<char>
    decreases parts.len(),
{
    if parts.len() == 0 {
        Seq::empty()
    } else {
        joined_lines(parts.drop_last()) + parts.last() + seq!['\n']
    }
}

/// The `Debug` text of each item, in order, each followed by a newline.
pub fn join_vec_debug<T: std::fmt::Debug>(vec: &Vec<T>) -> (r: String)
    ensures
        exists|parts: Seq<Seq<char>>| parts.len() == vec@.len() && r@ == joined_lines(parts),
{
    let mut output = String::new();
    let ghost mut parts: Seq<Seq<char>> = Seq::empty();
    let mut i: usize = 0;
    while i < vec.len()
        invariant
            i <= vec@.len(),
            parts.len() == i,
            output@ == joined_lines(parts),
        decreases vec@.len() - i,
    {
        let text = debug_text(&vec[i]);
        output.append(text.as_str());
        push_char(&mut output, '\n');
        proof {
            let next = parts.push(text@);
            assert(next.drop_last() =~= parts);
            parts = next;
        }
        i = i + 1;
    }
    assert(parts.len() == vec@.len() && output@ == joined_lines(parts));
    output
}

} // verus!
