//! What each request does to the store and how it is answered, from plain
//! request values: path, body, time of arrival and preconditions.
use vstd::prelude::*;

use crate::path::string_views;

pub mod boilerplate;
pub mod dir;
pub mod file;
pub mod status;

verus! {

/// The largest request body accepted, in bytes.
pub const MAX_SIZE: usize = 262144;

/// Whether a body of `received` bytes may take `chunk` more and stay
/// within `MAX_SIZE`; reading stops at the first chunk that does not fit.
pub fn body_fits(received: usize, chunk: usize) -> (r: bool)
    ensures
        r == (received + chunk <= MAX_SIZE),
{
    received <= MAX_SIZE && chunk <= MAX_SIZE - received
}

/// The names, one per line.
pub open spec fn joined_lines(names: Seq<Seq<char>>) -> Seq<char>
    decreases names.len(),
{
    if names.len() == 0 {
        Seq::empty()
    } else if names.len() == 1 {
        names[0]
    } else {
        joined_lines(names.drop_last()) + seq!['\n'] + names.last()
    }
}

/// The names, one per line.
pub fn join_lines(names: &Vec<String>) -> (r: String)
    ensures
        r@ == joined_lines(string_views(names@)),
{
    let mut r = String::new();
    let mut i: usize = 0;
    let ghost views = string_views(names@);
    assert(views.take(0) =~= Seq::<Seq<char>>::empty());
    while i < names.len()
        invariant
            i <= names.len(),
            views == string_views(names@),
            r@ == joined_lines(views.take(i as int)),
        decreases names.len() - i,
    {
        proof {
            reveal_strlit("\n");
        }
        assert(views.take(i + 1).drop_last() =~= views.take(i as int));
        if i > 0 {
            r.append("\n");
        } else {
            assert(r@ =~= Seq::<char>::empty());
        }
        r.append(names[i].as_str());
        assert(r@ =~= joined_lines(views.take(i + 1)));
        i = i + 1;
    }
    assert(views.take(names.len() as int) =~= views);
    r
}

/// How a successful PUT went.
#[derive(Debug, Clone, Copy, PartialEq, Eq)]
pub enum PutOutcome {
    /// The resource did not exist and was created.
    Created,
    /// The resource existed and was replaced.
    Replaced,
}

} // verus!
