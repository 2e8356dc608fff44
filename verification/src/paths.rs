//! Paths as texts with `/` between components.

use vstd::prelude::*;

use crate::text::{chars_of, contains_text, text_option, views};

verus! {

/// A path with another behind it. A path that starts with `/` replaces what stands
/// in front of it; `/` goes between the two unless the first is empty or ends with
/// it.
pub open spec fn joined(base: Seq<char>, rel: Seq<char>) -> Seq<char> {
    if rel.len() > 0 && rel[0] == '/' {
        rel
    } else if base.len() == 0 || base.last() == '/' {
        base + rel
    } else {
        base + "/"@ + rel
    }
}

/// Puts one path behind another.
pub fn join_path(base: &str, rel: &str) -> (r: String)
    ensures
        r@ == joined(base@, rel@),
{
    let b = chars_of(base);
    let q = chars_of(rel);
    if q.len() > 0 && q[0] == '/' {
        return rel.to_owned();
    }
    let mut out = base.to_owned();
    if b.len() > 0 && b[b.len() - 1] != '/' {
        out.append("/");
    }
    out.append(rel);
    out
}

/// The outcome of a search: the first of some places that is among those that exist;
/// nothing where none is.
pub open spec fn first_place(places: Seq<Seq<char>>, existing: Seq<Seq<char>>, r: Option<Seq<char>>) -> bool {
    match r {
        Some(p) => exists|i: int|
            {
                &&& 0 <= i < places.len()
                &&& #[trigger] places[i] == p
                &&& existing.contains(p)
                &&& forall|j: int| 0 <= j < i ==> !existing.contains(#[trigger] places[j])
            },
        None => forall|i: int| 0 <= i < places.len() ==> !existing.contains(#[trigger] places[i]),
    }
}

/// Finds the first of some places that is among those that exist.
pub fn first_present(places: &Vec<String>, existing: &Vec<String>) -> (r: Option<String>)
    ensures
        first_place(views(places@), views(existing@), text_option(r)),
{
    let ghost all = views(places@);
    let mut i: usize = 0;
    while i < places.len()
        invariant
            0 <= i <= places@.len(),
            all == views(places@),
            forall|j: int| 0 <= j < i ==> !views(existing@).contains(#[trigger] all[j]),
        decreases places@.len() - i,
    {
        assert(all[i as int] == places@[i as int]@);
        if contains_text(existing, places[i].as_str()) {
            return Some(places[i].clone());
        }
        i += 1;
    }
    None
}

/// Keeps those of some places that are among those that exist, in order.
pub fn keep_present(places: &Vec<String>, existing: &Vec<String>) -> (r: Vec<String>)
    ensures
        views(r@) == views(places@).filter(|p: Seq<char>| views(existing@).contains(p)),
{
    let ghost all = views(places@);
    let ghost there = |p: Seq<char>| views(existing@).contains(p);
    let mut out: Vec<String> = Vec::new();
    let mut i: usize = 0;
    proof {
        reveal(Seq::filter);
    }
    assert(views(out@) =~= all.take(0).filter(there));
    while i < places.len()
        invariant
            0 <= i <= places@.len(),
            all == views(places@),
            there == |p: Seq<char>| views(existing@).contains(p),
            views(out@) == all.take(i as int).filter(there),
        decreases places@.len() - i,
    {
        let ghost before = views(out@);
        let ghost next = all.take(i + 1);
        assert(next.drop_last() =~= all.take(i as int));
        assert(next.last() == places@[i as int]@);
        proof {
            reveal(Seq::filter);
        }
        if contains_text(existing, places[i].as_str()) {
            out.push(places[i].clone());
            assert(views(out@) =~= before.push(places@[i as int]@));
        }
        i += 1;
    }
    assert(all.take(i as int) =~= all);
    out
}

/// An absolute path replaces what stands in front of it; a relative one goes behind it, with
/// exactly one `/` between the two.
pub proof fn relative_paths_go_below_their_base(base: Seq<char>, rel: Seq<char>)
    ensures
        rel.len() > 0 && rel[0] == '/' ==> joined(base, rel) == rel,
        (rel.len() == 0 || rel[0] != '/') && base.len() > 0 && base.last() != '/' ==> joined(base, rel) == base + seq![
            '/',
        ] + rel,
        (rel.len() == 0 || rel[0] != '/') && (base.len() == 0 || base.last() == '/') ==> joined(base, rel) == base + rel,
{
    reveal_strlit("/");
    assert("/"@ =~= seq!['/']);
}

} // verus!
