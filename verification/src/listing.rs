//! The order of a directory listing.

use crate::text::{chars_of, copy_chars, same_chars};
use vstd::prelude::*;
use vstd::relations::{sorted_by, total_ordering};
use vstd::seq_lib::lemma_sorted_unique;

verus! {

/// One line of a directory listing, as the order of the listing sees it: the
/// entry's name, the key by which names are compared, and whether the entry
/// is a directory.
pub struct Row {
    pub name: Seq<char>,
    pub key: Seq<char>,
    pub is_dir: bool,
}

/// One line of a directory listing.
#[derive(Debug, Clone)]
pub struct ListingRow {
    pub name: String,
    /// The key by which the name is compared, as characters.
    pub key: Vec<char>,
    pub is_dir: bool,
}

impl View for ListingRow {
    type V = Row;

    open spec fn view(&self) -> Row {
        Row { name: self.name@, key: self.key@, is_dir: self.is_dir }
    }
}

/// The rows that a sequence of listing rows stands for.
pub open spec fn row_views(rows: Seq<ListingRow>) -> Seq<Row> {
    Seq::new(rows.len(), |i: int| rows[i]@)
}

/// Whether `a` comes before `b`, or is equal to it, when texts are compared
/// character by character and a text comes before each of its extensions.
pub open spec fn lex_le(a: Seq<char>, b: Seq<char>) -> bool
    decreases a.len(),
{
    if a.len() == 0 {
        true
    } else if b.len() == 0 {
        false
    } else if a.first() != b.first() {
        a.first() < b.first()
    } else {
        lex_le(a.drop_first(), b.drop_first())
    }
}

/// The order of a listing: directories before files, within each group by
/// key, and rows of one key by their names. Only rows that are the same come
/// out equal.
pub open spec fn row_le(a: Row, b: Row) -> bool {
    if a.is_dir != b.is_dir {
        a.is_dir
    } else if a.key != b.key {
        lex_le(a.key, b.key)
    } else {
        lex_le(a.name, b.name)
    }
}

/// A sorted sequence with one more row, put behind every row that does not
/// come after it.
pub open spec fn insert_row(sorted: Seq<Row>, x: Row) -> Seq<Row>
    decreases sorted.len(),
{
    if sorted.len() == 0 {
        seq![x]
    } else if row_le(sorted.last(), x) {
        sorted.push(x)
    } else {
        insert_row(sorted.drop_last(), x).push(sorted.last())
    }
}

/// The rows in the order of a listing.
pub open spec fn sort_rows(rows: Seq<Row>) -> Seq<Row>
    decreases rows.len(),
{
    if rows.len() == 0 {
        rows
    } else {
        insert_row(sort_rows(rows.drop_last()), rows.last())
    }
}

/// Whether each row comes before, or is equal in order to, every later row.
pub open spec fn is_ordered(rows: Seq<Row>) -> bool {
    forall|i: int, j: int| 0 <= i < j < rows.len() ==> row_le(#[trigger] rows[i], #[trigger] rows[j])
}

/// Every text comes before or is equal to itself.
pub proof fn lemma_lex_le_reflexive(a: Seq<char>)
    ensures
        lex_le(a, a),
    decreases a.len(),
{
    if a.len() > 0 {
        lemma_lex_le_reflexive(a.drop_first());
    }
}

/// Of two texts, one comes before or is equal to the other.
pub proof fn lemma_lex_le_total(a: Seq<char>, b: Seq<char>)
    ensures
        lex_le(a, b) || lex_le(b, a),
    decreases a.len(),
{
    if a.len() > 0 && b.len() > 0 && a.first() == b.first() {
        lemma_lex_le_total(a.drop_first(), b.drop_first());
    }
}

/// Two texts that each come before or are equal to the other are the same.
pub proof fn lemma_lex_le_antisymmetric(a: Seq<char>, b: Seq<char>)
    requires
        lex_le(a, b),
        lex_le(b, a),
    ensures
        a == b,
    decreases a.len(),
{
    if a.len() == 0 || b.len() == 0 {
        assert(a =~= b);
    } else {
        lemma_lex_le_antisymmetric(a.drop_first(), b.drop_first());
        assert(a =~= seq![a.first()] + a.drop_first());
        assert(b =~= seq![b.first()] + b.drop_first());
    }
}

/// What comes before a text comes before everything that the text comes
/// before.
pub proof fn lemma_lex_le_transitive(a: Seq<char>, b: Seq<char>, c: Seq<char>)
    requires
        lex_le(a, b),
        lex_le(b, c),
    ensures
        lex_le(a, c),
    decreases a.len(),
{
    if a.len() > 0 && b.len() > 0 && c.len() > 0 && a.first() == b.first() && b.first()
        == c.first() {
        lemma_lex_le_transitive(a.drop_first(), b.drop_first(), c.drop_first());
    }
}

/// Of two rows, one comes before or is equal in order to the other.
pub proof fn lemma_row_le_total(a: Row, b: Row)
    ensures
        row_le(a, b) || row_le(b, a),
{
    lemma_lex_le_total(a.key, b.key);
    lemma_lex_le_total(a.name, b.name);
}

/// The order of rows carries over: what comes before a row comes before
/// everything that the row comes before.
pub proof fn lemma_row_le_transitive(a: Row, b: Row, c: Row)
    requires
        row_le(a, b),
        row_le(b, c),
    ensures
        row_le(a, c),
{
    if a.is_dir == b.is_dir && b.is_dir == c.is_dir {
        if a.key == b.key && b.key == c.key {
            lemma_lex_le_transitive(a.name, b.name, c.name);
        } else if a.key == b.key {
        } else if b.key == c.key {
        } else {
            lemma_lex_le_transitive(a.key, b.key, c.key);
            if a.key == c.key {
                lemma_lex_le_antisymmetric(a.key, b.key);
            }
        }
    }
}

/// Two rows that each come before or are equal to the other are the same row.
pub proof fn lemma_row_le_antisymmetric(a: Row, b: Row)
    requires
        row_le(a, b),
        row_le(b, a),
    ensures
        a == b,
{
    if a.key != b.key {
        lemma_lex_le_antisymmetric(a.key, b.key);
    }
    lemma_lex_le_antisymmetric(a.name, b.name);
}

/// Inserting a row adds that row and nothing else.
pub proof fn lemma_insert_row_permutes(sorted: Seq<Row>, x: Row)
    ensures
        insert_row(sorted, x).to_multiset() == sorted.to_multiset().insert(x),
        insert_row(sorted, x).len() == sorted.len() + 1,
    decreases sorted.len(),
{
    broadcast use vstd::seq_lib::group_to_multiset_ensures;

    if sorted.len() == 0 {
    } else if row_le(sorted.last(), x) {
    } else {
        let init = sorted.drop_last();
        lemma_insert_row_permutes(init, x);
        assert(sorted =~= init.push(sorted.last()));
        assert(insert_row(sorted, x).to_multiset() =~= sorted.to_multiset().insert(x));
    }
}

/// Sorting keeps every row, as often as it was given.
pub proof fn lemma_sort_rows_permutes(rows: Seq<Row>)
    ensures
        sort_rows(rows).to_multiset() == rows.to_multiset(),
        sort_rows(rows).len() == rows.len(),
    decreases rows.len(),
{
    broadcast use vstd::seq_lib::group_to_multiset_ensures;

    if rows.len() > 0 {
        let init = rows.drop_last();
        lemma_sort_rows_permutes(init);
        lemma_insert_row_permutes(sort_rows(init), rows.last());
        assert(rows =~= init.push(rows.last()));
    }
}

/// Inserting a row into ordered rows leaves them ordered.
pub proof fn lemma_insert_row_ordered(sorted: Seq<Row>, x: Row)
    requires
        is_ordered(sorted),
    ensures
        is_ordered(insert_row(sorted, x)),
    decreases sorted.len(),
{
    broadcast use vstd::seq_lib::group_to_multiset_ensures;

    let out = insert_row(sorted, x);
    if sorted.len() == 0 {
    } else if row_le(sorted.last(), x) {
        assert forall|i: int, j: int| 0 <= i < j < out.len() implies row_le(
            #[trigger] out[i],
            #[trigger] out[j],
        ) by {
            if j == sorted.len() && i < sorted.len() - 1 {
                lemma_row_le_transitive(sorted[i], sorted.last(), x);
            }
        }
    } else {
        let init = sorted.drop_last();
        let last = sorted.last();
        lemma_insert_row_ordered(init, x);
        lemma_insert_row_permutes(init, x);
        lemma_row_le_total(last, x);
        let head = insert_row(init, x);
        assert forall|i: int, j: int| 0 <= i < j < out.len() implies row_le(
            #[trigger] out[i],
            #[trigger] out[j],
        ) by {
            if j == head.len() {
                assert(head.contains(head[i]));
                assert(head.to_multiset().count(head[i]) > 0);
                if head[i] != x {
                    assert(init.to_multiset().count(head[i]) > 0);
                    assert(init.contains(head[i]));
                    let k = choose|k: int| 0 <= k < init.len() && init[k] == head[i];
                    assert(row_le(sorted[k], sorted[sorted.len() - 1]));
                }
            } else {
                assert(row_le(head[i], head[j]));
            }
        }
    }
}

/// Sorted rows are in the order of a listing: directories come before files,
/// and within each group the keys ascend.
pub proof fn lemma_sort_rows_ordered(rows: Seq<Row>)
    ensures
        is_ordered(sort_rows(rows)),
    decreases rows.len(),
{
    if rows.len() > 0 {
        lemma_sort_rows_ordered(rows.drop_last());
        lemma_insert_row_ordered(sort_rows(rows.drop_last()), rows.last());
    }
}

/// The order of a listing is a total order on rows.
pub proof fn lemma_row_le_is_total_ordering()
    ensures
        total_ordering(|a: Row, b: Row| row_le(a, b)),
{
    let r = |a: Row, b: Row| row_le(a, b);
    assert forall|x: Row| #[trigger] r(x, x) by {
        lemma_lex_le_reflexive(x.name);
    }
    assert forall|x: Row, y: Row| #[trigger] r(x, y) && #[trigger] r(y, x) implies x == y by {
        lemma_row_le_antisymmetric(x, y);
    }
    assert forall|x: Row, y: Row, z: Row| #[trigger] r(x, y) && #[trigger] r(y, z) implies r(
        x,
        z,
    ) by {
        lemma_row_le_transitive(x, y, z);
    }
    assert forall|x: Row, y: Row| #[trigger] r(x, y) || #[trigger] r(y, x) by {
        lemma_row_le_total(x, y);
    }
}

/// The order of a listing depends on nothing but its rows: two sequences that
/// hold the same rows, each as often as the other, sort to the same sequence.
pub proof fn lemma_sort_rows_is_deterministic(a: Seq<Row>, b: Seq<Row>)
    requires
        a.to_multiset() == b.to_multiset(),
    ensures
        sort_rows(a) == sort_rows(b),
{
    let r = |x: Row, y: Row| row_le(x, y);
    let sa = sort_rows(a);
    let sb = sort_rows(b);
    lemma_sort_rows_permutes(a);
    lemma_sort_rows_permutes(b);
    lemma_sort_rows_ordered(a);
    lemma_sort_rows_ordered(b);
    lemma_row_le_is_total_ordering();
    assert forall|i: int, j: int| 0 <= i < j < sa.len() implies #[trigger] r(sa[i], sa[j]) by {
        assert(row_le(sa[i], sa[j]));
    }
    assert forall|i: int, j: int| 0 <= i < j < sb.len() implies #[trigger] r(sb[i], sb[j]) by {
        assert(row_le(sb[i], sb[j]));
    }
    assert(sorted_by(sa, r));
    assert(sorted_by(sb, r));
    lemma_sorted_unique(sa, sb, r);
}

/// Where a row goes among ordered rows: behind the last row that does not
/// come after it.
proof fn lemma_insert_row_at(sorted: Seq<Row>, x: Row, p: int)
    requires
        0 <= p <= sorted.len(),
        forall|j: int| p <= j < sorted.len() ==> !row_le(#[trigger] sorted[j], x),
        p > 0 ==> row_le(sorted[p - 1], x),
    ensures
        insert_row(sorted, x) == sorted.insert(p, x),
    decreases sorted.len(),
{
    if sorted.len() == 0 {
        assert(insert_row(sorted, x) =~= sorted.insert(p, x));
    } else if p == sorted.len() {
        assert(insert_row(sorted, x) =~= sorted.insert(p, x));
    } else {
        assert(!row_le(sorted[sorted.len() - 1], x));
        lemma_insert_row_at(sorted.drop_last(), x, p);
        assert(insert_row(sorted, x) =~= sorted.insert(p, x));
    }
}

/// Whether `a` comes before `b`, or is equal to it.
pub fn text_le(a: &[char], b: &[char]) -> (le: bool)
    ensures
        le == lex_le(a@, b@),
{
    let mut i: usize = 0;
    assert(a@.skip(0) =~= a@);
    assert(b@.skip(0) =~= b@);
    while i < a.len() && i < b.len()
        invariant
            i <= a.len(),
            i <= b.len(),
            lex_le(a@, b@) == lex_le(a@.skip(i as int), b@.skip(i as int)),
        decreases a.len() - i,
    {
        if a[i] != b[i] {
            return a[i] < b[i];
        }
        assert(a@.skip(i as int).drop_first() =~= a@.skip(i + 1));
        assert(b@.skip(i as int).drop_first() =~= b@.skip(i + 1));
        i += 1;
    }
    i == a.len()
}

/// Whether row `a` comes before row `b`, or is equal to it in order.
pub fn row_before(a: &ListingRow, b: &ListingRow) -> (le: bool)
    ensures
        le == row_le(a@, b@),
{
    if a.is_dir != b.is_dir {
        a.is_dir
    } else if !same_chars(a.key.as_slice(), b.key.as_slice()) {
        text_le(a.key.as_slice(), b.key.as_slice())
    } else {
        let an = chars_of(a.name.as_str());
        let bn = chars_of(b.name.as_str());
        text_le(an.as_slice(), bn.as_slice())
    }
}

/// Puts rows in the order of a listing: directories before files, within each
/// group by key, and rows of one key by their names. The order given does not
/// matter.
pub fn sort_listing(rows: &Vec<ListingRow>) -> (sorted: Vec<ListingRow>)
    ensures
        row_views(sorted@) == sort_rows(row_views(rows@)),
        is_ordered(row_views(sorted@)),
        row_views(sorted@).to_multiset() == row_views(rows@).to_multiset(),
{
    let mut out: Vec<ListingRow> = Vec::new();
    let mut i: usize = 0;
    assert(row_views(rows@).take(0) =~= Seq::<Row>::empty());
    assert(row_views(out@) =~= Seq::<Row>::empty());
    while i < rows.len()
        invariant
            i <= rows.len(),
            row_views(out@) == sort_rows(row_views(rows@).take(i as int)),
        decreases rows.len() - i,
    {
        let row = ListingRow {
            name: rows[i].name.clone(),
            key: copy_chars(rows[i].key.as_slice()),
            is_dir: rows[i].is_dir,
        };
        assert(row@ == rows@[i as int]@);
        let ghost before = row_views(out@);
        proof {
            assert(row_views(rows@).take(i + 1).drop_last() =~= row_views(rows@).take(i as int));
            assert(row_views(rows@).take(i + 1).last() == row@);
            lemma_sort_rows_ordered(row_views(rows@).take(i as int));
        }
        let mut p: usize = out.len();
        while p > 0 && !row_before(&out[p - 1], &row)
            invariant
                p <= out.len(),
                before == row_views(out@),
                forall|j: int| p <= j < before.len() ==> !row_le(#[trigger] before[j], row@),
            decreases p,
        {
            p -= 1;
        }
        proof {
            lemma_insert_row_at(before, row@, p as int);
        }
        out.insert(p, row);
        assert(row_views(out@) =~= before.insert(p as int, row@));
        i += 1;
    }
    proof {
        assert(row_views(rows@).take(rows.len() as int) =~= row_views(rows@));
        lemma_sort_rows_ordered(row_views(rows@));
        lemma_sort_rows_permutes(row_views(rows@));
    }
    out
}

} // verus!
