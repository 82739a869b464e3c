//! Ordered listings.
//!
//! Rows are ordered by a number, then by a text, then by a key that no two rows share. A
//! listing has each row of a set once, in that order.
use vstd::prelude::*;

use crate::text::{chars_of, same_text};

verus! {

/// A row of a listing.
#[derive(Debug)]
pub struct Row {
    pub rank: u64,
    pub text: String,
    pub key: String,
}

/// A row with its texts as characters.
pub ghost struct RowModel {
    pub rank: u64,
    pub text: Seq<char>,
    pub key: Seq<char>,
}

impl View for Row {
    type V = RowModel;

    open spec fn view(&self) -> RowModel {
        RowModel { rank: self.rank, text: self.text@, key: self.key@ }
    }
}

/// `a` comes before `b`, character by character.
pub open spec fn text_before(a: Seq<char>, b: Seq<char>) -> bool
    decreases b.len(),
{
    if b.len() == 0 {
        false
    } else if a.len() == 0 {
        true
    } else {
        a[0] < b[0] || (a[0] == b[0] && text_before(a.skip(1), b.skip(1)))
    }
}

/// `a` comes before `b`.
pub open spec fn row_before(a: RowModel, b: RowModel) -> bool {
    ||| a.rank < b.rank
    ||| a.rank == b.rank && text_before(a.text, b.text)
    ||| a.rank == b.rank && a.text == b.text && text_before(a.key, b.key)
}

/// `a` comes before `b`, or after it where the order is reversed.
pub open spec fn before_in(a: RowModel, b: RowModel, up: bool) -> bool {
    if up {
        row_before(a, b)
    } else {
        row_before(b, a)
    }
}

/// The rows are in order.
pub open spec fn in_order(s: Seq<RowModel>, up: bool) -> bool {
    forall|i: int, j: int| 0 <= i < j < s.len() ==> before_in(#[trigger] s[i], #[trigger] s[j], up)
}

/// `s` has each row of the set once, in order.
pub open spec fn is_listing(s: Seq<RowModel>, rows: Set<RowModel>) -> bool {
    in_order(s, true) && forall|r: RowModel| #[trigger] s.contains(r) <==> rows.contains(r)
}

/// The rows of a set in order.
pub open spec fn listing(rows: Set<RowModel>) -> Seq<RowModel> {
    choose|s: Seq<RowModel>| is_listing(s, rows)
}

proof fn lemma_text_irreflexive(a: Seq<char>)
    ensures
        !text_before(a, a),
    decreases a.len(),
{
    if a.len() > 0 {
        lemma_text_irreflexive(a.skip(1));
    }
}

proof fn lemma_text_transitive(a: Seq<char>, b: Seq<char>, c: Seq<char>)
    requires
        text_before(a, b),
        text_before(b, c),
    ensures
        text_before(a, c),
    decreases a.len(),
{
    if a.len() > 0 && a[0] == b[0] && b[0] == c[0] {
        lemma_text_transitive(a.skip(1), b.skip(1), c.skip(1));
    }
}

proof fn lemma_text_total(a: Seq<char>, b: Seq<char>)
    ensures
        a == b || text_before(a, b) || text_before(b, a),
    decreases a.len(),
{
    if a.len() > 0 && b.len() > 0 {
        lemma_text_total(a.skip(1), b.skip(1));
        if a[0] == b[0] && a.skip(1) == b.skip(1) {
            assert(a =~= seq![a[0]] + a.skip(1));
            assert(b =~= seq![b[0]] + b.skip(1));
        }
    } else if a.len() == 0 && b.len() == 0 {
        assert(a =~= b);
    }
}

/// The order is strict.
pub proof fn lemma_row_irreflexive(a: RowModel)
    ensures
        !row_before(a, a),
{
    lemma_text_irreflexive(a.text);
    lemma_text_irreflexive(a.key);
}

/// The order is transitive.
pub proof fn lemma_row_transitive(a: RowModel, b: RowModel, c: RowModel)
    requires
        row_before(a, b),
        row_before(b, c),
    ensures
        row_before(a, c),
{
    if a.rank == b.rank && b.rank == c.rank {
        if text_before(a.text, b.text) && text_before(b.text, c.text) {
            lemma_text_transitive(a.text, b.text, c.text);
        }
        if a.text == b.text && b.text == c.text {
            lemma_text_irreflexive(a.text);
            lemma_text_transitive(a.key, b.key, c.key);
        }
    }
}

/// Of two different rows one comes first.
pub proof fn lemma_row_total(a: RowModel, b: RowModel)
    ensures
        a == b || row_before(a, b) || row_before(b, a),
{
    lemma_text_total(a.text, b.text);
    lemma_text_total(a.key, b.key);
}

/// A set has at most one listing: what is listed is the same on every machine.
pub proof fn law_listing_is_unique(s: Seq<RowModel>, t: Seq<RowModel>, rows: Set<RowModel>)
    requires
        is_listing(s, rows),
        is_listing(t, rows),
    ensures
        s == t,
    decreases s.len(),
{
    if s.len() == 0 {
        if t.len() > 0 {
            assert(t.contains(t[0]));
            assert(s.contains(t[0]));
        }
        assert(s =~= t);
    } else {
        assert(s.contains(s[0]));
        assert(t.contains(s[0]));
        assert(t.contains(t[0]));
        assert(s.contains(t[0]));
        let i = choose|i: int| 0 <= i < t.len() && t[i] == s[0];
        let j = choose|j: int| 0 <= j < s.len() && s[j] == t[0];
        if s[0] != t[0] {
            assert(row_before(t[0], t[i]));
            assert(row_before(s[0], s[j]));
            lemma_row_transitive(s[0], t[0], s[0]);
            lemma_row_irreflexive(s[0]);
        }
        let first = s[0];
        let less = rows.remove(first);
        lemma_listing_rest(s, rows);
        lemma_listing_rest(t, rows);
        law_listing_is_unique(s.skip(1), t.skip(1), less);
        assert(s =~= seq![first] + s.skip(1));
        assert(t =~= seq![first] + t.skip(1));
    }
}

proof fn lemma_listing_rest(s: Seq<RowModel>, rows: Set<RowModel>)
    requires
        is_listing(s, rows),
        s.len() > 0,
    ensures
        is_listing(s.skip(1), rows.remove(s[0])),
{
    let rest = s.skip(1);
    assert forall|i: int, j: int| 0 <= i < j < rest.len() implies before_in(
        #[trigger] rest[i],
        #[trigger] rest[j],
        true,
    ) by {
        assert(before_in(s[i + 1], s[j + 1], true));
    }
    assert forall|r: RowModel| #[trigger] rest.contains(r) <==> rows.remove(s[0]).contains(r) by {
        if rest.contains(r) {
            let i = choose|i: int| 0 <= i < rest.len() && rest[i] == r;
            assert(s[i + 1] == r);
            assert(s.contains(r));
            assert(before_in(s[0], s[i + 1], true));
            lemma_row_irreflexive(r);
        }
        if rows.contains(r) && r != s[0] {
            assert(s.contains(r));
            let i = choose|i: int| 0 <= i < s.len() && s[i] == r;
            assert(rest[i - 1] == r);
        }
    }
}

fn text_comes_before(a: &str, b: &str) -> (r: bool)
    ensures
        r == text_before(a@, b@),
{
    let x = chars_of(a);
    let y = chars_of(b);
    let mut i: usize = 0;
    assert(x@.skip(0) =~= x@);
    assert(y@.skip(0) =~= y@);
    while i < x.len() && i < y.len()
        invariant
            i <= x@.len(),
            i <= y@.len(),
            x@ == a@,
            y@ == b@,
            text_before(a@, b@) == text_before(x@.skip(i as int), y@.skip(i as int)),
        decreases x@.len() - i,
    {
        proof {
            assert(x@.skip(i as int).skip(1) =~= x@.skip(i + 1));
            assert(y@.skip(i as int).skip(1) =~= y@.skip(i + 1));
        }
        if x[i] != y[i] {
            return x[i] < y[i];
        }
        i += 1;
    }
    i < y.len()
}

fn comes_before(a: &Row, b: &Row) -> (r: bool)
    ensures
        r == row_before(a@, b@),
{
    if a.rank != b.rank {
        return a.rank < b.rank;
    }
    if text_comes_before(&a.text, &b.text) {
        return true;
    }
    same_text(&a.text, &b.text) && text_comes_before(&a.key, &b.key)
}

/// The rows of a vector.
pub open spec fn rows_of(v: Seq<Row>) -> Seq<RowModel> {
    v.map_values(|r: Row| r@)
}

/// No row stands in both.
pub open spec fn disjoint(a: Seq<RowModel>, b: Seq<RowModel>) -> bool {
    forall|i: int, j: int| 0 <= i < a.len() && 0 <= j < b.len() ==> #[trigger] a[i] != #[trigger] b[j]
}

/// Merges two lists in one order into one list in the other, taking from their ends.
fn merge(left: Vec<Row>, right: Vec<Row>, up: bool) -> (r: Vec<Row>)
    requires
        in_order(rows_of(left@), !up),
        in_order(rows_of(right@), !up),
        disjoint(rows_of(left@), rows_of(right@)),
    ensures
        in_order(rows_of(r@), up),
        forall|x: RowModel| #[trigger]
            rows_of(r@).contains(x) <==> rows_of(left@).contains(x) || rows_of(right@).contains(x),
{
    let ghost a0 = rows_of(left@);
    let ghost b0 = rows_of(right@);
    let mut left = left;
    let mut right = right;
    let mut out: Vec<Row> = Vec::new();
    proof {
        assert(a0.take(a0.len() as int) =~= a0);
        assert(b0.take(b0.len() as int) =~= b0);
    }
    while left.len() > 0 || right.len() > 0
        invariant
            in_order(a0, !up),
            in_order(b0, !up),
            disjoint(a0, b0),
            left@.len() <= a0.len(),
            right@.len() <= b0.len(),
            rows_of(left@) == a0.take(left@.len() as int),
            rows_of(right@) == b0.take(right@.len() as int),
            in_order(rows_of(out@), up),
            forall|i: int, j: int|
                0 <= i < out@.len() && 0 <= j < left@.len() ==> before_in(
                    #[trigger] rows_of(out@)[i],
                    #[trigger] a0[j],
                    up,
                ),
            forall|i: int, j: int|
                0 <= i < out@.len() && 0 <= j < right@.len() ==> before_in(
                    #[trigger] rows_of(out@)[i],
                    #[trigger] b0[j],
                    up,
                ),
            forall|x: RowModel| #[trigger]
                rows_of(out@).contains(x) <==> a0.skip(left@.len() as int).contains(x) || b0.skip(
                    right@.len() as int,
                ).contains(x),
        decreases left@.len() + right@.len(),
    {
        let ghost out0 = rows_of(out@);
        let ghost n = left@.len() as int;
        let ghost m = right@.len() as int;
        let ghost left0 = left@;
        let ghost right0 = right@;
        let take_left = if left.len() == 0 {
            false
        } else if right.len() == 0 {
            true
        } else {
            let first = comes_before(&left[left.len() - 1], &right[right.len() - 1]);
            proof {
                let x = rows_of(left@)[n - 1];
                let y = rows_of(right@)[m - 1];
                assert(x == a0[n - 1] && y == b0[m - 1]);
                lemma_row_total(x, y);
                if row_before(x, y) && row_before(y, x) {
                    lemma_row_transitive(x, y, x);
                    lemma_row_irreflexive(x);
                }
            }
            first == up
        };
        if take_left {
            if let Some(row) = left.pop() {
                proof {
                    assert(row@ == rows_of(left0)[n - 1]);
                    assert(row@ == a0[n - 1]);
                    assert(rows_of(left@) =~= a0.take(n - 1));
                    lemma_taken(a0, b0, n, m, up);
                    assert(rows_of(out@.push(row)) =~= out0.push(row@));
                    lemma_skip_one(a0, n);
                }
                out.push(row);
            }
        } else {
            if let Some(row) = right.pop() {
                proof {
                    assert(row@ == rows_of(right0)[m - 1]);
                    assert(row@ == b0[m - 1]);
                    assert(rows_of(right@) =~= b0.take(m - 1));
                    lemma_taken(b0, a0, m, n, up);
                    assert(rows_of(out@.push(row)) =~= out0.push(row@));
                    lemma_skip_one(b0, m);
                }
                out.push(row);
            }
        }
        proof {
            assert forall|x: RowModel| #[trigger] rows_of(out@).contains(x) <==> out0.contains(x) || x
                == rows_of(out@).last() by {
                lemma_push_contains(out0, rows_of(out@).last(), x);
                assert(rows_of(out@) =~= out0.push(rows_of(out@).last()));
            }
        }
    }
    proof {
        assert(a0.skip(0) =~= a0);
        assert(b0.skip(0) =~= b0);
    }
    out
}

proof fn lemma_push_contains(s: Seq<RowModel>, y: RowModel, x: RowModel)
    ensures
        s.push(y).contains(x) <==> s.contains(x) || x == y,
{
    let t = s.push(y);
    if s.contains(x) {
        let i = choose|i: int| 0 <= i < s.len() && s[i] == x;
        assert(t[i] == x);
    }
    if x == y {
        assert(t[s.len() as int] == x);
    }
    if t.contains(x) && x != y {
        let i = choose|i: int| 0 <= i < t.len() && t[i] == x;
        assert(s[i] == x);
    }
}

proof fn lemma_skip_one(s: Seq<RowModel>, n: int)
    requires
        0 < n <= s.len(),
    ensures
        forall|x: RowModel| #[trigger]
            s.skip(n - 1).contains(x) <==> s.skip(n).contains(x) || x == s[n - 1],
{
    let more = s.skip(n - 1);
    let less = s.skip(n);
    assert forall|x: RowModel| #[trigger] more.contains(x) <==> less.contains(x) || x == s[n - 1] by {
        if less.contains(x) {
            let i = choose|i: int| 0 <= i < less.len() && less[i] == x;
            assert(more[i + 1] == x);
        }
        if x == s[n - 1] {
            assert(more[0] == x);
        }
        if more.contains(x) && x != s[n - 1] {
            let i = choose|i: int| 0 <= i < more.len() && more[i] == x;
            assert(less[i - 1] == x);
        }
    }
}

/// The end of `a` comes before all that is left of both lists.
proof fn lemma_taken(a: Seq<RowModel>, b: Seq<RowModel>, n: int, m: int, up: bool)
    requires
        0 < n <= a.len(),
        0 <= m <= b.len(),
        in_order(a, !up),
        in_order(b, !up),
        m > 0 ==> before_in(a[n - 1], b[m - 1], up),
    ensures
        forall|j: int| 0 <= j < n - 1 ==> before_in(a[n - 1], #[trigger] a[j], up),
        forall|j: int| 0 <= j < m ==> before_in(a[n - 1], #[trigger] b[j], up),
{
    assert forall|j: int| 0 <= j < n - 1 implies before_in(a[n - 1], #[trigger] a[j], up) by {
        assert(before_in(a[j], a[n - 1], !up));
    }
    assert forall|j: int| 0 <= j < m implies before_in(a[n - 1], #[trigger] b[j], up) by {
        if j < m - 1 {
            assert(before_in(b[j], b[m - 1], !up));
            if up {
                lemma_row_transitive(a[n - 1], b[m - 1], b[j]);
            } else {
                lemma_row_transitive(b[j], b[m - 1], a[n - 1]);
            }
        }
    }
}

/// Sorts rows that differ from one another.
fn sort(rows: Vec<Row>, up: bool) -> (r: Vec<Row>)
    requires
        rows_of(rows@).no_duplicates(),
    ensures
        in_order(rows_of(r@), up),
        forall|x: RowModel| #[trigger] rows_of(r@).contains(x) <==> rows_of(rows@).contains(x),
    decreases rows@.len(),
{
    let ghost all = rows_of(rows@);
    let n: usize = rows.len();
    if n <= 1 {
        return rows;
    }
    let mut left = rows;
    let right = left.split_off(n / 2);
    proof {
        let k = (n / 2) as int;
        let a = rows_of(left@);
        let b = rows_of(right@);
        assert(a =~= all.take(k));
        assert(b =~= all.skip(k));
        assert forall|x: RowModel| #[trigger] all.contains(x) <==> a.contains(x) || b.contains(x) by {
            if all.contains(x) {
                let i = choose|i: int| 0 <= i < all.len() && all[i] == x;
                if i < k {
                    assert(a[i] == x);
                } else {
                    assert(b[i - k] == x);
                }
            }
            if a.contains(x) {
                let i = choose|i: int| 0 <= i < a.len() && a[i] == x;
                assert(all[i] == x);
            }
            if b.contains(x) {
                let i = choose|i: int| 0 <= i < b.len() && b[i] == x;
                assert(all[i + k] == x);
            }
        }
        assert(a.no_duplicates());
        assert(b.no_duplicates());
        assert(disjoint(a, b)) by {
            assert forall|i: int, j: int| 0 <= i < a.len() && 0 <= j < b.len() implies #[trigger] a[i]
                != #[trigger] b[j] by {
                assert(a[i] == all[i] && b[j] == all[j + k]);
            }
        }
    }
    let ghost a = rows_of(left@);
    let ghost b = rows_of(right@);
    let x = sort(left, !up);
    let y = sort(right, !up);
    proof {
        let p = rows_of(x@);
        let q = rows_of(y@);
        assert forall|i: int, j: int| 0 <= i < p.len() && 0 <= j < q.len() implies #[trigger] p[i]
            != #[trigger] q[j] by {
            assert(p.contains(p[i]));
            assert(q.contains(q[j]));
            assert(a.contains(p[i]) && b.contains(q[j]));
            if p[i] == q[j] {
                let u = choose|u: int| 0 <= u < a.len() && a[u] == p[i];
                let v = choose|v: int| 0 <= v < b.len() && b[v] == q[j];
                assert(a[u] != b[v]);
            }
        }
    }
    merge(x, y, up)
}

/// Lists rows in order.
pub fn list_rows(rows: Vec<Row>) -> (r: Vec<Row>)
    requires
        rows_of(rows@).no_duplicates(),
    ensures
        rows_of(r@) == listing(rows_of(rows@).to_set()),
        is_listing(rows_of(r@), rows_of(rows@).to_set()),
{
    let ghost set = rows_of(rows@).to_set();
    let r = sort(rows, true);
    proof {
        assert(is_listing(rows_of(r@), set));
        law_listing_is_unique(rows_of(r@), listing(set), set);
    }
    r
}

} // verus!
