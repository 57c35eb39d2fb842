//! What the engine keeps of a user's identity. Who the user is has been
//! established before a request arrives; the id comes with every call.

use vstd::prelude::*;
use vstd::string::*;

verus! {

/// The position of the first `@` of a text, or its length where it has
/// none.
pub open spec fn first_at(text: Seq<char>) -> int
    decreases text.len(),
{
    if text.len() == 0 || text[0] == '@' {
        0
    } else {
        1 + first_at(text.drop_first())
    }
}

/// The part of an address before its first `@`.
pub open spec fn spec_local_part(email: Seq<char>) -> Seq<char> {
    email.take(first_at(email))
}

/// A position with no `@` before it that holds one, or the end, is the
/// first `@`.
proof fn lemma_first_at_found(text: Seq<char>, i: int)
    requires
        0 <= i <= text.len(),
        forall|j: int| 0 <= j < i ==> text[j] != '@',
        i < text.len() ==> text[i] == '@',
    ensures
        first_at(text) == i,
    decreases text.len(),
{
    if i > 0 {
        let rest = text.drop_first();
        lemma_first_at_found(rest, i - 1);
    }
}

/// The name under which a new user is shown: the given name, or the part
/// of the address before its first `@`.
pub fn display_name(name: Option<String>, email: &str) -> (shown: String)
    ensures
        shown@ == match name {
            Some(n) => n@,
            None => spec_local_part(email@),
        },
{
    match name {
        Some(n) => n,
        None => {
            let n = email.unicode_len();
            let mut i: usize = 0;
            while i < n && email.get_char(i) != '@'
                invariant
                    n == email@.len(),
                    i <= n,
                    forall|j: int| 0 <= j < i ==> email@[j] != '@',
                decreases n - i,
            {
                i += 1;
            }
            proof {
                lemma_first_at_found(email@, i as int);
            }
            email.substring_char(0, i).to_owned()
        },
    }
}

} // verus!
