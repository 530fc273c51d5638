//! The table of indexed chunks: its columns, its predicates, and what a search makes of its rows.
use vstd::prelude::*;

use crate::reranker::Row;
use crate::text::{concat3, replace_char, replaced, str_eq};

verus! {

// ----------------------------------------------------------------------------------------------
// Columns
// ----------------------------------------------------------------------------------------------

/// How many numbers a vector has.
pub const VEC_DIM: i32 = 384;

/// What a column holds.
#[derive(Clone, Copy, PartialEq, Eq, Structural, Debug)]
pub enum ColumnType {
    /// Text.
    Utf8,
    /// A vector of so many single-precision numbers.
    Vector(i32),
}

/// A column of the table. No column may be null.
#[derive(Clone, Copy, Debug)]
pub struct Column {
    pub name: &'static str,
    pub kind: ColumnType,
}

/// The name of the table.
pub fn table_name() -> (r: &'static str)
    ensures
        r@ == "files_v2"@,
{
    "files_v2"
}

/// The columns of the table, in order: four of text, and the vector.
pub fn schema() -> (r: Vec<Column>)
    ensures
        r@.len() == 5,
        r@[0].name@ == "file_id"@,
        r@[1].name@ == "filename"@,
        r@[2].name@ == "physical_path"@,
        r@[3].name@ == "chunk_text"@,
        r@[4].name@ == "vector"@,
        forall|i: int| 0 <= i < 4 ==> (#[trigger] r@[i]).kind == ColumnType::Utf8,
        r@[4].kind == ColumnType::Vector(VEC_DIM),
        r@[4].kind == ColumnType::Vector(384),
{
    let mut out: Vec<Column> = Vec::new();
    out.push(Column { name: "file_id", kind: ColumnType::Utf8 });
    out.push(Column { name: "filename", kind: ColumnType::Utf8 });
    out.push(Column { name: "physical_path", kind: ColumnType::Utf8 });
    out.push(Column { name: "chunk_text", kind: ColumnType::Utf8 });
    out.push(Column { name: "vector", kind: ColumnType::Vector(VEC_DIM) });
    out
}

// ----------------------------------------------------------------------------------------------
// Deleting by path
// ----------------------------------------------------------------------------------------------

/// The text with each quote doubled, as it stands between quotes.
pub open spec fn quoted(s: Seq<char>) -> Seq<char> {
    replaced(s, '\'', "''"@)
}

/// The predicate that holds of the rows of one path.
pub open spec fn path_predicate(path: Seq<char>) -> Seq<char> {
    "physical_path = '"@ + quoted(path) + "'"@
}

/// Writes the predicate that holds of the rows of one path.
pub fn delete_predicate(physical_path: &str) -> (r: String)
    ensures
        r@ == path_predicate(physical_path@),
{
    concat3("physical_path = '", replace_char(physical_path, '\'', "''").as_str(), "'")
}

/// What stands between quotes with each doubled quote taken as one; nothing where a quote stands
/// alone.
pub open spec fn unquoted(s: Seq<char>) -> Option<Seq<char>>
    decreases s.len(),
{
    if s.len() == 0 {
        Some(Seq::empty())
    } else if s.last() != '\'' {
        match unquoted(s.drop_last()) {
            Some(t) => Some(t.push(s.last())),
            None => None,
        }
    } else if s.len() >= 2 && s[s.len() - 2] == '\'' {
        match unquoted(s.drop_last().drop_last()) {
            Some(t) => Some(t.push('\'')),
            None => None,
        }
    } else {
        None
    }
}

/// Whatever a path holds, the predicate's quoted text stands for that path: no quote in it ends the
/// text early.
pub proof fn law_quoting_is_undone(path: Seq<char>)
    ensures
        unquoted(quoted(path)) == Some(path),
    decreases path.len(),
{
    reveal_strlit("''");
    if path.len() > 0 {
        law_quoting_is_undone(path.drop_last());
        let q = quoted(path);
        let front = quoted(path.drop_last());
        assert(path.drop_last().push(path.last()) =~= path);
        if path.last() == '\'' {
            assert(q =~= front.push('\'').push('\''));
            assert(q.drop_last().drop_last() =~= front);
        } else {
            assert(q =~= front.push(path.last()));
            assert(q.drop_last() =~= front);
        }
    } else {
        assert(path =~= Seq::<char>::empty());
    }
}

/// Different paths have different predicates.
pub proof fn law_predicates_tell_paths_apart(a: Seq<char>, b: Seq<char>)
    ensures
        path_predicate(a) == path_predicate(b) <==> a == b,
{
    law_quoting_is_undone(a);
    law_quoting_is_undone(b);
    let n = "physical_path = '"@.len();
    if path_predicate(a) == path_predicate(b) {
        let p = path_predicate(a);
        let m = "'"@.len();
        assert(p.subrange(n as int, p.len() - m) =~= quoted(a));
        assert(p.subrange(n as int, p.len() - m) =~= quoted(b));
    }
}

// ----------------------------------------------------------------------------------------------
// Searching
// ----------------------------------------------------------------------------------------------

/// How many rows are asked for, so that enough distinct files are among them.
pub fn over_limit(limit: usize, overfetch: usize) -> (r: usize)
    requires
        limit * overfetch <= usize::MAX,
    ensures
        r == limit * overfetch,
{
    limit * overfetch
}

/// Whether one of the rows is of this path.
pub open spec fn has_path(rows: Seq<Row>, path: Seq<char>) -> bool {
    exists|i: int| 0 <= i < rows.len() && (#[trigger] rows[i]).1@ == path
}

/// The first row of each path, in order.
pub open spec fn first_of_each(rows: Seq<Row>) -> Seq<Row>
    decreases rows.len(),
{
    if rows.len() == 0 {
        Seq::empty()
    } else {
        let before = first_of_each(rows.drop_last());
        if has_path(before, rows.last().1@) {
            before
        } else {
            before.push(rows.last())
        }
    }
}

/// The first rows, as many as there may be.
pub open spec fn at_most(rows: Seq<Row>, limit: nat) -> Seq<Row> {
    if rows.len() <= limit {
        rows
    } else {
        rows.take(limit as int)
    }
}

/// The results of a search in the making: rows come in by their distance, and the first of each
/// path is kept until there are enough.
pub struct SearchResults {
    rows: Vec<Row>,
    limit: usize,
    seen: Ghost<Seq<Row>>,
}

impl SearchResults {
    /// The rows that came in.
    pub closed spec fn seen(self) -> Seq<Row> {
        self.seen@
    }

    /// How many results there may be.
    pub closed spec fn limit(self) -> nat {
        self.limit as nat
    }

    #[verifier::type_invariant]
    spec fn well_formed(self) -> bool {
        self.rows@ == at_most(first_of_each(self.seen@), self.limit as nat)
    }

    /// Starts without any rows.
    pub fn new(limit: usize) -> (r: SearchResults)
        ensures
            r.seen() == Seq::<Row>::empty(),
            r.limit() == limit,
    {
        SearchResults { rows: Vec::new(), limit, seen: Ghost(Seq::empty()) }
    }

    /// Whether there are enough results: no row that comes in later can be among them.
    pub fn is_full(&self) -> (r: bool)
        ensures
            r == (first_of_each(self.seen()).len() >= self.limit()),
    {
        proof {
            use_type_invariant(self);
        }
        self.rows.len() >= self.limit
    }

    /// Takes in the next row.
    pub fn push(&mut self, row: Row)
        ensures
            final(self).seen() == old(self).seen().push(row),
            final(self).limit() == old(self).limit(),
    {
        proof {
            use_type_invariant(&*self);
        }
        let ghost seen = self.seen@;
        let ghost now = seen.push(row);
        assert(now.drop_last() =~= seen);
        let full: bool = self.rows.len() >= self.limit;
        let limit: usize = self.limit;
        let mut taken: SearchResults = SearchResults::new(limit);
        std::mem::swap(&mut taken, self);
        let mut rows: Vec<Row> = taken.rows;
        if !full && !path_is_among(&rows, row.1.as_str()) {
            rows.push(row);
        }
        assert(rows@ =~= at_most(first_of_each(now), limit as nat));
        *self = SearchResults { rows, limit, seen: Ghost(now) };
    }

    /// The results: the first row of each path, as many as there may be.
    pub fn finish(self) -> (r: Vec<Row>)
        ensures
            r@ == at_most(first_of_each(self.seen()), self.limit()),
    {
        proof {
            use_type_invariant(&self);
        }
        self.rows
    }
}

fn path_is_among(rows: &Vec<Row>, path: &str) -> (r: bool)
    ensures
        r == has_path(rows@, path@),
{
    let n: usize = rows.len();
    let mut i: usize = 0;
    while i < n
        invariant
            i <= n,
            n == rows@.len(),
            forall|k: int| 0 <= k < i ==> (#[trigger] rows@[k]).1@ != path@,
        decreases n - i,
    {
        if str_eq(rows[i].1.as_str(), path) {
            assert(rows@[i as int].1@ == path@);
            return true;
        }
        i = i + 1;
    }
    false
}

/// The file name and the path of each row.
pub open spec fn names_and_paths(rows: Seq<Row>) -> Seq<(Seq<char>, Seq<char>)> {
    rows.map_values(|r: Row| (r.0@, r.1@))
}

/// The views of pairs of strings.
pub open spec fn pair_views(pairs: Seq<(String, String)>) -> Seq<(Seq<char>, Seq<char>)> {
    pairs.map_values(|p: (String, String)| (p.0@, p.1@))
}

/// Leaves the chunks out of search results.
pub fn without_chunks(rows: &Vec<Row>) -> (r: Vec<(String, String)>)
    ensures
        pair_views(r@) == names_and_paths(rows@),
        r@.len() == rows@.len(),
        forall|i: int|
            0 <= i < rows@.len() ==> (#[trigger] r@[i]).0@ == rows@[i].0@ && r@[i].1@ == rows@[i].1@,
{
    let n: usize = rows.len();
    let mut out: Vec<(String, String)> = Vec::new();
    let mut i: usize = 0;
    while i < n
        invariant
            i <= n,
            n == rows@.len(),
            pair_views(out@) =~= names_and_paths(rows@).take(i as int),
        decreases n - i,
    {
        let ghost before = pair_views(out@);
        let pair: (String, String) = (rows[i].0.clone(), rows[i].1.clone());
        out.push(pair);
        assert(pair_views(out@) =~= before.push((pair.0@, pair.1@)));
        i = i + 1;
    }
    assert(names_and_paths(rows@).take(n as int) =~= names_and_paths(rows@));
    assert(pair_views(out@).len() == out@.len());
    assert forall|i: int| 0 <= i < rows@.len() implies (#[trigger] out@[i]).0@ == rows@[i].0@
        && out@[i].1@ == rows@[i].1@ by {
        assert(pair_views(out@)[i] == names_and_paths(rows@)[i]);
    }
    out
}

// ----------------------------------------------------------------------------------------------
// What a search promises
// ----------------------------------------------------------------------------------------------

/// No two results are of the same file, and there are no more of them than were asked for.
pub proof fn law_results_are_distinct_files(rows: Seq<Row>, limit: nat)
    ensures
        at_most(first_of_each(rows), limit).len() <= limit,
        forall|i: int, j: int|
            0 <= i < j < at_most(first_of_each(rows), limit).len() ==> (
            #[trigger] at_most(first_of_each(rows), limit)[i]).1@ != (#[trigger] at_most(
                first_of_each(rows),
                limit,
            )[j]).1@,
{
    lemma_first_of_each_distinct(rows);
    let all = first_of_each(rows);
    let out = at_most(all, limit);
    assert forall|i: int, j: int| 0 <= i < j < out.len() implies (#[trigger] out[i]).1@ != (
    #[trigger] out[j]).1@ by {
        assert(out[i] == all[i] && out[j] == all[j]);
    }
}

proof fn lemma_first_of_each_distinct(rows: Seq<Row>)
    ensures
        forall|i: int, j: int|
            0 <= i < j < first_of_each(rows).len() ==> (#[trigger] first_of_each(rows)[i]).1@ != (
            #[trigger] first_of_each(rows)[j]).1@,
    decreases rows.len(),
{
    if rows.len() > 0 {
        lemma_first_of_each_distinct(rows.drop_last());
        let before = first_of_each(rows.drop_last());
        let all = first_of_each(rows);
        assert forall|i: int, j: int| 0 <= i < j < all.len() implies (#[trigger] all[i]).1@ != (
        #[trigger] all[j]).1@ by {
            assert(all[i] == before[i]);
            if j < before.len() {
                assert(all[j] == before[j]);
            }
        }
    }
}

/// Every file among the rows is among the first rows of each path, and each of those is a row that
/// came in.
pub proof fn law_every_file_is_found(rows: Seq<Row>)
    ensures
        forall|i: int| 0 <= i < rows.len() ==> has_path(first_of_each(rows), (#[trigger] rows[i]).1@),
        forall|i: int|
            0 <= i < first_of_each(rows).len() ==> rows.contains(#[trigger] first_of_each(rows)[i]),
    decreases rows.len(),
{
    if rows.len() > 0 {
        let front = rows.drop_last();
        law_every_file_is_found(front);
        let before = first_of_each(front);
        let all = first_of_each(rows);
        assert forall|i: int| 0 <= i < rows.len() implies has_path(all, (#[trigger] rows[i]).1@) by {
            if i < front.len() {
                assert(rows[i] == front[i]);
                let k = choose|k: int|
                    0 <= k < before.len() && (#[trigger] before[k]).1@ == front[i].1@;
                assert(all[k].1@ == rows[i].1@);
            } else if !has_path(before, rows.last().1@) {
                assert(all[all.len() - 1].1@ == rows[i].1@);
            }
        }
        assert forall|i: int| 0 <= i < all.len() implies rows.contains(#[trigger] all[i]) by {
            if i < before.len() {
                assert(all[i] == before[i]);
                let k = choose|k: int| 0 <= k < front.len() && front[k] == before[i];
                assert(rows[k] == all[i]);
            } else {
                assert(rows[rows.len() - 1] == all[i]);
            }
        }
    }
}

/// Once there are enough results, the rows that are still to come change nothing.
pub proof fn law_a_full_search_may_stop(rows: Seq<Row>, more: Seq<Row>, limit: nat)
    requires
        first_of_each(rows).len() >= limit,
    ensures
        at_most(first_of_each(rows + more), limit) == at_most(first_of_each(rows), limit),
{
    lemma_first_of_each_grows(rows, more);
    let a = first_of_each(rows);
    let b = first_of_each(rows + more);
    assert(at_most(b, limit) =~= at_most(a, limit));
}

proof fn lemma_first_of_each_grows(rows: Seq<Row>, more: Seq<Row>)
    ensures
        first_of_each(rows).len() <= first_of_each(rows + more).len(),
        forall|i: int|
            0 <= i < first_of_each(rows).len() ==> first_of_each(rows)[i] == first_of_each(
                rows + more,
            )[i],
    decreases more.len(),
{
    if more.len() == 0 {
        assert(rows + more =~= rows);
    } else {
        lemma_first_of_each_grows(rows, more.drop_last());
        assert((rows + more).drop_last() =~= rows + more.drop_last());
    }
}

/// A predicate names the path between quotes, with every character of the path as it is but for the
/// quotes, each of which is doubled.
pub proof fn law_predicates_double_each_quote(path: Seq<char>)
    ensures
        path_predicate(path) == "physical_path = '"@ + path.map_values(
            |c: char|
                if c == '\'' {
                    seq!['\'', '\'']
                } else {
                    seq![c]
                },
        ).flatten() + "'"@,
{
    lemma_quoted_flat(path);
}

proof fn lemma_quoted_flat(s: Seq<char>)
    ensures
        quoted(s) == s.map_values(
            |c: char|
                if c == '\'' {
                    seq!['\'', '\'']
                } else {
                    seq![c]
                },
        ).flatten(),
    decreases s.len(),
{
    let double = |c: char|
        if c == '\'' {
            seq!['\'', '\'']
        } else {
            seq![c]
        };
    reveal_strlit("''");
    assert("''"@ =~= seq!['\'', '\'']);
    let all = s.map_values(double);
    all.lemma_flatten_and_flatten_alt_are_equivalent();
    if s.len() > 0 {
        let front = s.drop_last();
        lemma_quoted_flat(front);
        assert(all.drop_last() =~= front.map_values(double));
        front.map_values(double).lemma_flatten_and_flatten_alt_are_equivalent();
        assert(all.last() == double(s.last()));
    }
}

/// Of the rows that come in, those are kept whose path no earlier row has, each as it is and in the
/// order in which they came; of these the first ones are the results, as many as were asked for.
pub proof fn law_the_first_row_of_each_path_is_kept(rows: Seq<Row>, limit: nat) -> (at: Seq<int>)
    ensures
        first_of_each(rows).len() == at.len(),
        forall|k: int|
            0 <= k < at.len() ==> 0 <= #[trigger] at[k] < rows.len() && first_of_each(rows)[k]
                == rows[at[k]],
        forall|k: int, l: int| 0 <= k < l < at.len() ==> #[trigger] at[k] < #[trigger] at[l],
        forall|i: int|
            0 <= i < rows.len() ==> (#[trigger] at.contains(i) <==> forall|j: int|
                0 <= j < i ==> (#[trigger] rows[j]).1@ != rows[i].1@),
        at.len() <= limit ==> at_most(first_of_each(rows), limit).len() == at.len(),
        at.len() > limit ==> at_most(first_of_each(rows), limit).len() == limit,
        forall|k: int|
            0 <= k < at_most(first_of_each(rows), limit).len() ==> #[trigger] at_most(
                first_of_each(rows),
                limit,
            )[k] == rows[at[k]],
    decreases rows.len(),
{
    if rows.len() == 0 {
        Seq::empty()
    } else {
        let front = rows.drop_last();
        let n = front.len() as int;
        let was = law_the_first_row_of_each_path_is_kept(front, limit);
        let before = first_of_each(front);
        let path = rows.last().1@;
        let new = !has_path(before, path);
        let at = if new {
            was.push(n)
        } else {
            was
        };
        law_every_file_is_found(front);
        assert(new <==> forall|j: int| 0 <= j < n ==> (#[trigger] rows[j]).1@ != path) by {
            if new {
                assert forall|j: int| 0 <= j < n implies (#[trigger] rows[j]).1@ != path by {
                    assert(rows[j] == front[j]);
                    assert(has_path(before, front[j].1@));
                }
            } else {
                let k = choose|k: int| 0 <= k < before.len() && (#[trigger] before[k]).1@ == path;
                assert(before[k] == front[was[k]]);
                assert(rows[was[k]].1@ == path);
            }
        }
        assert forall|i: int| 0 <= i < rows.len() implies (#[trigger] at.contains(i) <==> forall|
            j: int,
        |
            0 <= j < i ==> (#[trigger] rows[j]).1@ != rows[i].1@) by {
            if i < n {
                assert(rows[i] == front[i]);
                assert(at.contains(i) <==> was.contains(i)) by {
                    if was.contains(i) {
                        let k = choose|k: int| 0 <= k < was.len() && was[k] == i;
                        assert(at[k] == i);
                    }
                    if at.contains(i) {
                        let k = choose|k: int| 0 <= k < at.len() && at[k] == i;
                        assert(was[k] == i);
                    }
                }
                assert forall|j: int| 0 <= j < i implies #[trigger] rows[j] == front[j] by {}
                if forall|j: int| 0 <= j < i ==> (#[trigger] front[j]).1@ != front[i].1@ {
                    assert forall|j: int| 0 <= j < i implies (#[trigger] rows[j]).1@
                        != rows[i].1@ by {
                        assert(front[j].1@ != front[i].1@);
                    }
                } else {
                    let j = choose|j: int|
                        0 <= j < i && (#[trigger] front[j]).1@ == front[i].1@;
                    assert(rows[j].1@ == rows[i].1@);
                }
            } else {
                if new {
                    assert(at[at.len() - 1] == n);
                } else if at.contains(n) {
                    let k = choose|k: int| 0 <= k < was.len() && was[k] == n;
                    assert(was[k] < n);
                }
            }
        }
        at
    }
}

/// Names and paths are those of the rows, each in its place, and so are the views of pairs.
pub proof fn law_names_and_paths_are_those_of_the_rows(
    rows: Seq<Row>,
    pairs: Seq<(String, String)>,
    i: int,
)
    ensures
        names_and_paths(rows).len() == rows.len(),
        0 <= i < rows.len() ==> names_and_paths(rows)[i] == (rows[i].0@, rows[i].1@),
        pair_views(pairs).len() == pairs.len(),
        0 <= i < pairs.len() ==> pair_views(pairs)[i] == (pairs[i].0@, pairs[i].1@),
{
}

} // verus!
