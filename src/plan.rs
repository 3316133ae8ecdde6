//! The rename plan: which file gets which new name.
use crate::names::{
    compose_new_name, extract_file_suffix, file_suffix, filter_object_files, is_prefix, new_name,
};
use vstd::prelude::*;

verus! {

/// A mapping from old file names to new ones, each old name at most once.
///
/// The entries keep the order in which their old names were first
/// inserted; inserting an old name again replaces its new name.
pub struct RenamePlan {
    entries: Vec<(String, String)>,
    map: Ghost<Map<Seq<char>, Seq<char>>>,
}

impl View for RenamePlan {
    type V = Map<Seq<char>, Seq<char>>;

    closed spec fn view(&self) -> Map<Seq<char>, Seq<char>> {
        self.map@
    }
}

impl RenamePlan {
    /// The entries list each key of the map once, with its value.
    pub closed spec fn wf(&self) -> bool {
        &&& self.map@.dom().finite()
        &&& self.map@.len() == self.entries@.len()
        &&& forall|i: int, j: int|
            0 <= i < j < self.entries@.len() ==> #[trigger] self.entries@[i].0@
                != #[trigger] self.entries@[j].0@
        &&& forall|i: int|
            0 <= i < self.entries@.len() ==> {
                &&& self.map@.contains_key(#[trigger] self.entries@[i].0@)
                &&& self.map@[self.entries@[i].0@] == self.entries@[i].1@
            }
        &&& forall|k: Seq<char>|
            #[trigger] self.map@.contains_key(k) ==> exists|i: int|
                0 <= i < self.entries@.len() && #[trigger] self.entries@[i].0@ == k
    }

    /// An empty plan.
    pub fn new() -> (r: RenamePlan)
        ensures
            r.wf(),
            r@ == Map::<Seq<char>, Seq<char>>::empty(),
    {
        RenamePlan { entries: Vec::new(), map: Ghost(Map::empty()) }
    }

    /// Maps `old_name` to `new_name`, replacing any earlier new name for it.
    pub fn insert(&mut self, old_name: String, new_name: String)
        requires
            old(self).wf(),
        ensures
            final(self).wf(),
            final(self)@ == old(self)@.insert(old_name@, new_name@),
    {
        let ghost key = old_name@;
        let mut i: usize = 0;
        while i < self.entries.len()
            invariant
                self.wf(),
                self@ == old(self)@,
                key == old_name@,
                i <= self.entries@.len(),
                forall|k: int| 0 <= k < i ==> #[trigger] self.entries@[k].0@ != key,
            decreases self.entries@.len() - i,
        {
            let ghost before = self.entries@;
            let ghost m0 = self.map@;
            let same = self.entries[i].0 == old_name;
            if same {
                proof {
                    assert(before[i as int].0@ == key);
                    assert(m0.contains_key(key));
                }
                self.entries.set(i, (old_name, new_name));
                self.map = Ghost(m0.insert(key, new_name@));
                proof {
                    assert(self.map@.dom() =~= m0.dom());
                    assert forall|k: Seq<char>| #[trigger] self.map@.contains_key(k) implies exists|
                        j: int,
                    | 0 <= j < self.entries@.len() && #[trigger] self.entries@[j].0@ == k by {
                        assert(m0.contains_key(k));
                        let j = choose|j: int| 0 <= j < before.len() && #[trigger] before[j].0@ == k;
                        assert(self.entries@[j].0@ == k);
                    }
                }
                return;
            }
            assert(before[i as int].0@ != key);
            i = i + 1;
        }
        let ghost before = self.entries@;
        let ghost m0 = self.map@;
        proof {
            assert(!m0.contains_key(key));
        }
        self.entries.push((old_name, new_name));
        self.map = Ghost(m0.insert(key, new_name@));
        proof {
            let n = before.len() as int;
            assert forall|k: Seq<char>| #[trigger] self.map@.contains_key(k) implies exists|j: int|
                0 <= j < self.entries@.len() && #[trigger] self.entries@[j].0@ == k by {
                if k == key {
                    assert(self.entries@[n].0@ == k);
                } else {
                    assert(m0.contains_key(k));
                    let j = choose|j: int| 0 <= j < n && #[trigger] before[j].0@ == k;
                    assert(self.entries@[j].0@ == k);
                }
            }
        }
    }

    /// The number of files the plan renames.
    pub fn len(&self) -> (r: usize)
        requires
            self.wf(),
        ensures
            r == self@.len(),
    {
        self.entries.len()
    }

    /// The pairs `(old name, new name)` of the plan, each old name once.
    pub fn entries(&self) -> (r: &Vec<(String, String)>)
        requires
            self.wf(),
        ensures
            r@.len() == self@.len(),
            forall|i: int|
                0 <= i < r@.len() ==> {
                    &&& self@.contains_key(#[trigger] r@[i].0@)
                    &&& self@[r@[i].0@] == r@[i].1@
                },
            forall|i: int, j: int| 0 <= i < j < r@.len() ==> #[trigger] r@[i].0@ != #[trigger] r@[j].0@,
    {
        &self.entries
    }
}

/// Why no plan could be made.
#[derive(Debug, Clone, Copy, PartialEq, Eq, Structural)]
pub enum PlanError {
    /// A data row lacks its lot number (field 0) or its inventory number
    /// (field 8).
    MalformedRow,
    /// A file that belongs to an object has no period in its name, so it has
    /// no suffix.
    SuffixExtraction,
}

/// Field of a data row that holds the lot number.
pub const LOT_FIELD: usize = 0;

/// Field of a data row that holds the inventory number.
pub const INVENTORY_FIELD: usize = 8;

/// A data row holds both the lot number and the inventory number.
pub open spec fn row_is_valid(row: Seq<Seq<char>>) -> bool {
    row.len() > INVENTORY_FIELD
}

/// The lot number of a row.
pub open spec fn lot_of(row: Seq<Seq<char>>) -> Seq<char> {
    row[LOT_FIELD as int]
}

/// The inventory number of a row.
pub open spec fn inventory_of(row: Seq<Seq<char>>) -> Seq<char> {
    row[INVENTORY_FIELD as int]
}

/// The file `name` belongs to the object of `row`.
pub open spec fn row_matches(row: Seq<Seq<char>>, name: Seq<char>) -> bool {
    is_prefix(inventory_of(row), name)
}

/// The error that one row raises against the directory's files, if any.
pub open spec fn row_error(row: Seq<Seq<char>>, files: Seq<Seq<char>>) -> Option<PlanError> {
    if !row_is_valid(row) {
        Some(PlanError::MalformedRow)
    } else if exists|k: int|
        0 <= k < files.len() && row_matches(row, #[trigger] files[k]) && file_suffix(
            files[k],
        ) is None {
        Some(PlanError::SuffixExtraction)
    } else {
        None
    }
}

/// The error of the first row, in order, that raises one.
pub open spec fn first_error(rows: Seq<Seq<Seq<char>>>, files: Seq<Seq<char>>) -> Option<
    PlanError,
>
    decreases rows.len(),
{
    if rows.len() == 0 {
        None
    } else {
        match first_error(rows.drop_last(), files) {
            Some(e) => Some(e),
            None => row_error(rows.last(), files),
        }
    }
}

/// Index of the last row that `name` belongs to, or -1 when there is none.
pub open spec fn last_match(rows: Seq<Seq<Seq<char>>>, name: Seq<char>) -> int
    decreases rows.len(),
{
    if rows.len() == 0 {
        -1
    } else if row_matches(rows.last(), name) {
        rows.len() - 1
    } else {
        last_match(rows.drop_last(), name)
    }
}

/// Each file that belongs to some row, renamed after the lot number of the
/// last such row and after its own suffix.
pub open spec fn plan_map(rows: Seq<Seq<Seq<char>>>, files: Seq<Seq<char>>) -> Map<
    Seq<char>,
    Seq<char>,
> {
    Map::new(
        |f: Seq<char>| files.contains(f) && last_match(rows, f) >= 0,
        |f: Seq<char>| new_name(lot_of(rows[last_match(rows, f)]), file_suffix(f)->0),
    )
}

/// The outcome of planning: the first error, or the plan.
pub open spec fn planned(rows: Seq<Seq<Seq<char>>>, files: Seq<Seq<char>>) -> Result<
    Map<Seq<char>, Seq<char>>,
    PlanError,
> {
    match first_error(rows, files) {
        Some(e) => Err(e),
        None => Ok(plan_map(rows, files)),
    }
}

/// `m` with each of `names` mapped to its new name under `lot`.
spec fn overlay(m: Map<Seq<char>, Seq<char>>, names: Seq<Seq<char>>, lot: Seq<char>) -> Map<
    Seq<char>,
    Seq<char>,
> {
    Map::new(
        |f: Seq<char>| m.contains_key(f) || names.contains(f),
        |f: Seq<char>|
            if names.contains(f) {
                new_name(lot, file_suffix(f)->0)
            } else {
                m[f]
            },
    )
}

/// `last_match` names the last row that a file belongs to, if any.
pub proof fn lemma_last_match(rows: Seq<Seq<Seq<char>>>, name: Seq<char>)
    ensures
        -1 <= last_match(rows, name) < rows.len(),
        last_match(rows, name) >= 0 ==> row_matches(rows[last_match(rows, name)], name),
        forall|k: int|
            last_match(rows, name) < k < rows.len() ==> !row_matches(#[trigger] rows[k], name),
    decreases rows.len(),
{
    if rows.len() > 0 && !row_matches(rows.last(), name) {
        lemma_last_match(rows.drop_last(), name);
        assert forall|k: int| last_match(rows, name) < k < rows.len() implies !row_matches(
            #[trigger] rows[k],
            name,
        ) by {
            if k < rows.len() - 1 {
                assert(rows.drop_last()[k] == rows[k]);
            }
        }
    }
}

/// Once some leading rows raise an error, the whole sequence raises it.
proof fn lemma_first_error_prefix(rows: Seq<Seq<Seq<char>>>, n: int, files: Seq<Seq<char>>)
    requires
        0 <= n <= rows.len(),
        first_error(rows.subrange(0, n), files) is Some,
    ensures
        first_error(rows, files) == first_error(rows.subrange(0, n), files),
    decreases rows.len() - n,
{
    if n == rows.len() {
        assert(rows.subrange(0, n) =~= rows);
    } else {
        assert(rows.drop_last().subrange(0, n) =~= rows.subrange(0, n));
        lemma_first_error_prefix(rows.drop_last(), n, files);
    }
}

/// Planning raises no error exactly when no single row raises one.
pub proof fn lemma_first_error_none(rows: Seq<Seq<Seq<char>>>, files: Seq<Seq<char>>)
    ensures
        first_error(rows, files) is None <==> forall|k: int|
            0 <= k < rows.len() ==> (#[trigger] row_error(rows[k], files)) is None,
    decreases rows.len(),
{
    if rows.len() > 0 {
        let front = rows.drop_last();
        lemma_first_error_none(front, files);
        assert forall|k: int| 0 <= k < front.len() implies #[trigger] front[k] == rows[k] by {}
        if first_error(rows, files) is None {
            assert forall|k: int| 0 <= k < rows.len() implies (#[trigger] row_error(
                rows[k],
                files,
            )) is None by {
                if k < front.len() {
                    assert(row_error(front[k], files) is None);
                }
            }
        }
        if forall|k: int| 0 <= k < rows.len() ==> (#[trigger] row_error(rows[k], files)) is None {
            assert forall|k: int| 0 <= k < front.len() implies (#[trigger] row_error(
                front[k],
                files,
            )) is None by {
                assert(row_error(rows[k], files) is None);
            }
            assert(row_error(rows[rows.len() - 1], files) is None);
        }
    }
}

/// Where planning succeeds, every file that belongs to a row is in the plan,
/// renamed to `<lot>_<suffix>.jpg`: the lot number is that of the last row
/// the file belongs to, and the suffix is exactly the file's second
/// period-delimited segment.
pub proof fn lemma_matched_file_renamed(
    rows: Seq<Seq<Seq<char>>>,
    files: Seq<Seq<char>>,
    name: Seq<char>,
    r: int,
)
    requires
        planned(rows, files) is Ok,
        files.contains(name),
        0 <= r < rows.len(),
        row_matches(rows[r], name),
    ensures
        ({
            let plan = planned(rows, files)->Ok_0;
            let last = last_match(rows, name);
            &&& r <= last < rows.len()
            &&& row_matches(rows[last], name)
            &&& file_suffix(name) is Some
            &&& plan.contains_key(name)
            &&& plan[name] == new_name(lot_of(rows[last]), file_suffix(name)->0)
        }),
{
    lemma_last_match(rows, name);
    lemma_first_error_none(rows, files);
    assert(row_error(rows[r], files) is None);
    let k = choose|k: int| 0 <= k < files.len() && files[k] == name;
    assert(row_matches(rows[r], files[k]));
}

/// A file that belongs to no row is never in the plan.
pub proof fn lemma_unmatched_file_absent(
    rows: Seq<Seq<Seq<char>>>,
    files: Seq<Seq<char>>,
    name: Seq<char>,
)
    requires
        forall|r: int| 0 <= r < rows.len() ==> !row_matches(#[trigger] rows[r], name),
    ensures
        planned(rows, files) matches Ok(plan) ==> !plan.contains_key(name),
{
    lemma_last_match(rows, name);
}

/// Planning again over files that no longer start with any inventory number
/// (as after a successful run) finds nothing to rename.
pub proof fn lemma_replanning_renamed_is_empty(
    rows: Seq<Seq<Seq<char>>>,
    files: Seq<Seq<char>>,
    renamed: Seq<Seq<char>>,
)
    requires
        planned(rows, files) is Ok,
        forall|r: int, k: int|
            0 <= r < rows.len() && 0 <= k < renamed.len() ==> !row_matches(
                #[trigger] rows[r],
                #[trigger] renamed[k],
            ),
    ensures
        planned(rows, renamed) == Ok::<_, PlanError>(Map::<Seq<char>, Seq<char>>::empty()),
{
    lemma_first_error_none(rows, files);
    lemma_first_error_none(rows, renamed);
    assert forall|r: int| 0 <= r < rows.len() implies (#[trigger] row_error(
        rows[r],
        renamed,
    )) is None by {
        assert(row_error(rows[r], files) is None);
    }
    assert forall|f: Seq<char>| !(#[trigger] plan_map(rows, renamed).contains_key(f)) by {
        if renamed.contains(f) {
            let k = choose|k: int| 0 <= k < renamed.len() && renamed[k] == f;
            lemma_last_match(rows, f);
            if last_match(rows, f) >= 0 {
                assert(!row_matches(rows[last_match(rows, f)], renamed[k]));
            }
        }
    }
    assert(plan_map(rows, renamed) =~= Map::<Seq<char>, Seq<char>>::empty());
}

/// Works out the new name of every file in `files` that belongs to a row of
/// `csv_rows`. Rows are taken in order, so where a file belongs to several
/// rows the last one decides. Fails on the first row that lacks a field, or
/// whose files include one without a suffix.
pub fn determine_renamings(csv_rows: Vec<Vec<String>>, files: Vec<String>) -> (r: Result<
    RenamePlan,
    PlanError,
>)
    ensures
        match r {
            Ok(plan) => plan.wf() && planned(csv_rows.deep_view(), files.deep_view()) == Ok::<
                _,
                PlanError,
            >(plan@),
            Err(e) => planned(csv_rows.deep_view(), files.deep_view()) == Err::<
                Map<Seq<char>, Seq<char>>,
                _,
            >(e),
        },
{
    let ghost rows = csv_rows.deep_view();
    let ghost fs = files.deep_view();
    let mut plan = RenamePlan::new();
    let mut i: usize = 0;
    while i < csv_rows.len()
        invariant
            rows == csv_rows.deep_view(),
            fs == files.deep_view(),
            i <= rows.len(),
            plan.wf(),
            first_error(rows.subrange(0, i as int), fs) is None,
            plan@ == plan_map(rows.subrange(0, i as int), fs),
        decreases rows.len() - i,
    {
        let ghost done = rows.subrange(0, i as int);
        let ghost upto = rows.subrange(0, i + 1);
        let ghost before = plan@;
        assert(upto.drop_last() =~= done);
        assert(upto.last() == rows[i as int]);
        let row = &csv_rows[i];
        assert(row.deep_view() == rows[i as int]);
        if row.len() <= INVENTORY_FIELD {
            proof {
                assert(first_error(upto, fs) == Some(PlanError::MalformedRow));
                lemma_first_error_prefix(rows, i + 1, fs);
            }
            return Err(PlanError::MalformedRow);
        }
        let lot_number = row[LOT_FIELD].as_str();
        let inventory_number = row[INVENTORY_FIELD].as_str();
        assert(lot_number@ == lot_of(rows[i as int]));
        assert(inventory_number@ == inventory_of(rows[i as int]));
        let object_files = filter_object_files(&files, inventory_number);
        let ghost objs = object_files.deep_view();
        let mut j: usize = 0;
        while j < object_files.len()
            invariant
                rows == csv_rows.deep_view(),
                fs == files.deep_view(),
                i < rows.len(),
                upto == rows.subrange(0, i + 1),
                upto.drop_last() == rows.subrange(0, i as int),
                first_error(rows.subrange(0, i as int), fs) is None,
                row_is_valid(rows[i as int]),
                lot_number@ == lot_of(rows[i as int]),
                inventory_number@ == inventory_of(rows[i as int]),
                forall|f: Seq<char>|
                    #[trigger] objs.contains(f) <==> fs.contains(f) && row_matches(
                        rows[i as int],
                        f,
                    ),
                objs == object_files.deep_view(),
                j <= objs.len(),
                plan.wf(),
                plan@ == overlay(before, objs.subrange(0, j as int), lot_number@),
                forall|k: int| 0 <= k < j ==> #[trigger] file_suffix(objs[k]) is Some,
            decreases objs.len() - j,
        {
            let ghost names = objs.subrange(0, j as int);
            let ghost name = objs[j as int];
            match extract_file_suffix(object_files[j].as_str()) {
                None => {
                    proof {
                        assert(object_files[j as int]@ == name);
                        assert(file_suffix(name) is None);
                        assert(objs.contains(name));
                        let k = choose|k: int| 0 <= k < fs.len() && fs[k] == name;
                        assert(row_matches(upto.last(), fs[k]));
                        assert(first_error(upto, fs) == Some(PlanError::SuffixExtraction));
                        lemma_first_error_prefix(rows, i + 1, fs);
                    }
                    return Err(PlanError::SuffixExtraction);
                },
                Some(suffix) => {
                    let renamed = compose_new_name(lot_number, suffix);
                    plan.insert(object_files[j].clone(), renamed);
                    proof {
                        let grown = objs.subrange(0, j + 1);
                        assert(grown =~= names.push(name));
                        assert forall|f: Seq<char>| #[trigger]
                            grown.contains(f) <==> names.contains(f) || f == name by {
                            if f == name {
                                assert(grown[j as int] == name);
                            }
                            if names.contains(f) {
                                let k = choose|k: int| 0 <= k < names.len() && names[k] == f;
                                assert(grown[k] == f);
                            }
                        }
                        assert(plan@ =~= overlay(before, grown, lot_number@));
                    }
                },
            }
            j = j + 1;
        }
        proof {
            assert(objs.subrange(0, j as int) =~= objs);
            assert forall|k: int|
                0 <= k < fs.len() && row_matches(
                    upto.last(),
                    #[trigger] fs[k],
                ) implies file_suffix(fs[k]) is Some by {
                assert(objs.contains(fs[k]));
            }
            assert(row_error(upto.last(), fs) is None);
            assert forall|f: Seq<char>|
                #[trigger] last_match(upto, f) == (if row_matches(rows[i as int], f) {
                    i as int
                } else {
                    last_match(done, f)
                }) && (last_match(done, f) >= 0 ==> upto[last_match(done, f)] == done[last_match(
                    done,
                    f,
                )]) by {
                lemma_last_match(done, f);
            }
            assert(plan@ =~= plan_map(upto, fs));
        }
        i = i + 1;
    }
    assert(rows.subrange(0, i as int) =~= rows);
    Ok(plan)
}

} // verus!
