//! Paths as text, joined by `std::path::Path::join`.

use vstd::prelude::*;
use crate::text;

verus! {

/// What `std::path::Path::join` makes of `base` and `part`.
pub uninterp spec fn join(base: Seq<char>, part: Seq<char>) -> Seq<char>;

/// `Path::new(base).join(part)`, as a `String`.
///
/// Trusted: the result is std's, named rather than restated, because it
/// differs between platforms (separator, prefixes, roots). The contract
/// says nothing more of it than that name.
#[verifier::external_body]
pub(crate) fn join_str(base: &str, part: &str) -> (r: String)
    ensures
        r@ == join(base@, part@),
{
    std::path::Path::new(base).join(part).to_string_lossy().into_owned()
}

/// `Path::join` on character vectors.
pub fn join_exec(base: &Vec<char>, part: &Vec<char>) -> (r: Vec<char>)
    ensures
        r@ == join(base@, part@),
{
    let b = text::string_of(base);
    let p = text::string_of(part);
    let r = join_str(b.as_str(), p.as_str());
    text::chars_of_string(&r)
}

/// `base` joined with each of `parts` in turn.
pub open spec fn join_all(base: Seq<char>, parts: Seq<Seq<char>>) -> Seq<char>
    decreases parts.len(),
{
    if parts.len() == 0 {
        base
    } else {
        join(join_all(base, parts.drop_last()), parts.last())
    }
}

/// Joins each piece of `rel`, split at `/`, onto `base` in turn.
pub fn join_pieces(base: &Vec<char>, rel: &Vec<char>) -> (r: Vec<char>)
    ensures
        r@ == join_all(base@, text::split_on(rel@, '/')),
{
    let pieces = text::split_on_exec(rel, '/');
    let mut r = base.clone();
    let mut i: usize = 0;
    while i < pieces.len()
        invariant
            i <= pieces.len(),
            text::views(pieces@) == text::split_on(rel@, '/'),
            r@ == join_all(base@, text::views(pieces@).take(i as int)),
        decreases pieces.len() - i,
    {
        proof {
            assert(pieces@[i as int]@ == text::views(pieces@)[i as int]);
            assert(text::views(pieces@).take(i + 1).drop_last() == text::views(pieces@).take(
                i as int,
            ));
        }
        r = join_exec(&r, &pieces[i]);
        i = i + 1;
    }
    assert(text::views(pieces@).take(pieces.len() as int) == text::views(pieces@));
    r
}

} // verus!
