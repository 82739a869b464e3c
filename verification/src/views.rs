//! Sequences of views.
use std::collections::VecDeque;
use vstd::prelude::*;

use crate::strmap::Duplicate;

verus! {

/// The views of the elements.
pub open spec fn views<T: View>(s: Seq<T>) -> Seq<T::V> {
    s.map_values(|x: T| x@)
}

/// The view of an optional value.
pub open spec fn view_option<T: View>(o: Option<T>) -> Option<T::V> {
    match o {
        Some(x) => Some(x@),
        None => None,
    }
}

/// Adding an element adds its view.
pub proof fn lemma_views_push<T: View>(s: Seq<T>, x: T)
    ensures
        views(s.push(x)) == views(s).push(x@),
{
    assert(views(s.push(x)) =~= views(s).push(x@));
}

/// A part of a sequence has that part of the views.
pub proof fn lemma_views_subrange<T: View>(s: Seq<T>, i: int, j: int)
    requires
        0 <= i <= j <= s.len(),
    ensures
        views(s.subrange(i, j)) == views(s).subrange(i, j),
{
    assert(views(s.subrange(i, j)) =~= views(s).subrange(i, j));
}

/// A second copy of an optional text.
pub fn copy_text(o: &Option<String>) -> (r: Option<String>)
    ensures
        view_option(r) == view_option(*o),
{
    match o {
        Some(s) => Some(s.clone()),
        None => None,
    }
}

/// A second copy of a queue.
pub fn copy_queue<T: Duplicate>(v: &VecDeque<T>) -> (r: VecDeque<T>)
    ensures
        views(r@) == views(v@),
{
    let mut out: VecDeque<T> = VecDeque::new();
    let mut i: usize = 0;
    while i < v.len()
        invariant
            i <= v@.len(),
            views(out@) == views(v@).take(i as int),
        decreases v@.len() - i,
    {
        let ghost before = out@;
        let x = v[i].duplicate();
        out.push_back(x);
        proof {
            lemma_views_push(before, x);
            assert(views(v@).take(i as int).push(views(v@)[i as int]) =~= views(v@).take(i + 1));
        }
        i += 1;
    }
    assert(views(v@).take(v@.len() as int) =~= views(v@));
    out
}

/// A second copy of a vector.
pub fn copy_vec<T: Duplicate>(v: &Vec<T>) -> (r: Vec<T>)
    ensures
        views(r@) == views(v@),
{
    let mut out: Vec<T> = Vec::new();
    let mut i: usize = 0;
    while i < v.len()
        invariant
            i <= v@.len(),
            views(out@) == views(v@).take(i as int),
        decreases v@.len() - i,
    {
        let ghost before = out@;
        let x = v[i].duplicate();
        out.push(x);
        proof {
            lemma_views_push(before, x);
            assert(views(v@).take(i as int).push(views(v@)[i as int]) =~= views(v@).take(i + 1));
        }
        i += 1;
    }
    assert(views(v@).take(v@.len() as int) =~= views(v@));
    out
}

/// The elements of a queue in a vector.
pub fn queue_to_vec<T: Duplicate>(v: &VecDeque<T>) -> (r: Vec<T>)
    ensures
        views(r@) == views(v@),
{
    let mut out: Vec<T> = Vec::new();
    let mut i: usize = 0;
    while i < v.len()
        invariant
            i <= v@.len(),
            views(out@) == views(v@).take(i as int),
        decreases v@.len() - i,
    {
        let ghost before = out@;
        let x = v[i].duplicate();
        out.push(x);
        proof {
            lemma_views_push(before, x);
            assert(views(v@).take(i as int).push(views(v@)[i as int]) =~= views(v@).take(i + 1));
        }
        i += 1;
    }
    assert(views(v@).take(v@.len() as int) =~= views(v@));
    out
}

} // verus!
