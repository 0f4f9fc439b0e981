use vstd::prelude::*;
use vstd::string::StringExecFns;

verus! {

/// The texts of `parts`, with a comma between each two of them.
pub open spec fn comma_joined(parts: Seq<Seq<char>>) -> Seq<char>
    decreases parts.len(),
{
    if parts.len() == 0 {
        Seq::empty()
    } else if parts.len() == 1 {
        parts[0]
    } else {
        comma_joined(parts.drop_last()) + seq![','] + parts.last()
    }
}

/// The text of each string of `parts`.
pub open spec fn texts(parts: Seq<String>) -> Seq<Seq<char>> {
    Seq::new(parts.len(), |i: int| parts[i]@)
}

/// Joins `parts` into one string, with a comma between each two of them.
pub fn join_with_commas(parts: &Vec<String>) -> (text: String)
    ensures
        text@ == comma_joined(texts(parts@)),
{
    let mut text = String::new();
    let mut i: usize = 0;
    while i < parts.len()
        invariant
            i <= parts.len(),
            text@ == comma_joined(texts(parts@).take(i as int)),
        decreases parts.len() - i,
    {
        proof {
            reveal_strlit(",");
            let done = texts(parts@).take(i as int);
            let next = texts(parts@).take(i + 1);
            assert(next.drop_last() =~= done);
        }
        if i > 0 {
            text.append(",");
        }
        text.append(parts[i].as_str());
        i += 1;
    }
    proof {
        assert(texts(parts@).take(i as int) =~= texts(parts@));
    }
    text
}

/// Calls `std::fmt::Debug` on `value` and hands back what it has written.
/// Nothing is claimed of the text: it is whatever the `Debug` implementation
/// of `T` writes.
#[verifier::external_body]
fn debug_text<T: core::fmt::Debug>(value: &T) -> (text: String) {
    format!("{:?}", value)
}

/// `text` is a text that `Debug` has written for `value`.
pub closed spec fn is_debug_text<T: core::fmt::Debug>(value: T, text: String) -> bool {
    call_ensures(debug_text::<T>, (&value,), text)
}

/// The text that `Debug` writes for `value`.
pub fn debug_string<T: core::fmt::Debug>(value: &T) -> (text: String)
    ensures
        is_debug_text(*value, text),
{
    let write = debug_text::<T>;
    write(value)
}

} // verus!
