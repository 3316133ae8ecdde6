//! File names: prefix matching, suffix extraction and composing new names.
use vstd::prelude::*;
use vstd::string::*;

verus! {

/// `p` is a prefix of `s`, compared character by character.
pub open spec fn is_prefix(p: Seq<char>, s: Seq<char>) -> bool {
    p.len() <= s.len() && s.subrange(0, p.len() as int) == p
}

/// Position of the first period in `s` at or after `from`, or the length of
/// `s` when there is none.
pub open spec fn next_dot(s: Seq<char>, from: int) -> int
    decreases s.len() - from,
{
    if from < 0 || from >= s.len() {
        s.len() as int
    } else if s[from] == '.' {
        from
    } else {
        next_dot(s, from + 1)
    }
}

/// The second period-delimited segment of a file name: what lies between
/// its first period and the next one (or the end). `None` when the name
/// holds no period, that is, has fewer than two segments.
pub open spec fn file_suffix(name: Seq<char>) -> Option<Seq<char>> {
    let first = next_dot(name, 0);
    if first >= name.len() {
        None
    } else {
        Some(name.subrange(first + 1, next_dot(name, first + 1)))
    }
}

/// The name `<lot>_<suffix>.jpg`.
pub open spec fn new_name(lot: Seq<char>, suffix: Seq<char>) -> Seq<char> {
    lot + seq!['_'] + suffix + seq!['.', 'j', 'p', 'g']
}

/// Where `next_dot` lands: a period, or the end, with no period skipped.
pub proof fn lemma_next_dot_bounds(s: Seq<char>, from: int)
    requires
        0 <= from <= s.len(),
    ensures
        from <= next_dot(s, from) <= s.len(),
        next_dot(s, from) < s.len() ==> s[next_dot(s, from)] == '.',
        forall|k: int| from <= k < next_dot(s, from) ==> s[k] != '.',
    decreases s.len() - from,
{
    if from < s.len() && s[from] != '.' {
        lemma_next_dot_bounds(s, from + 1);
    }
}

/// Tells whether `name` starts with `prefix`, comparing characters exactly
/// (so case matters and digits are not read as numbers).
pub fn has_prefix(name: &str, prefix: &str) -> (r: bool)
    ensures
        r == is_prefix(prefix@, name@),
{
    let n = name.unicode_len();
    let p = prefix.unicode_len();
    if p > n {
        return false;
    }
    let mut i: usize = 0;
    while i < p
        invariant
            p == prefix@.len(),
            n == name@.len(),
            p <= n,
            i <= p,
            forall|k: int| 0 <= k < i ==> name@[k] == prefix@[k],
        decreases p - i,
    {
        if name.get_char(i) != prefix.get_char(i) {
            assert(name@.subrange(0, p as int)[i as int] != prefix@[i as int]);
            return false;
        }
        i = i + 1;
    }
    assert(name@.subrange(0, p as int) =~= prefix@);
    true
}

/// The names among `files` that start with `object_id`, in their order.
pub open spec fn object_files(files: Seq<Seq<char>>, object_id: Seq<char>) -> Seq<Seq<char>> {
    files.filter(|f: Seq<char>| is_prefix(object_id, f))
}

/// The files that belong to the object `object_id`: those whose names start
/// with it, in the order given.
pub fn filter_object_files(files: &Vec<String>, object_id: &str) -> (r: Vec<String>)
    ensures
        r.deep_view() == object_files(files.deep_view(), object_id@),
        forall|f: Seq<char>|
            #[trigger] r.deep_view().contains(f) <==> files.deep_view().contains(f) && is_prefix(
                object_id@,
                f,
            ),
{
    let ghost all = files.deep_view();
    let ghost pred = |f: Seq<char>| is_prefix(object_id@, f);
    let mut r: Vec<String> = Vec::new();
    let mut i: usize = 0;
    while i < files.len()
        invariant
            all == files.deep_view(),
            pred == (|f: Seq<char>| is_prefix(object_id@, f)),
            i <= files.len(),
            r.deep_view() == all.subrange(0, i as int).filter(pred),
        decreases files.len() - i,
    {
        let ghost prev = r.deep_view();
        if has_prefix(files[i].as_str(), object_id) {
            r.push(files[i].clone());
            assert(r.deep_view() =~= prev.push(all[i as int]));
        } else {
            assert(r.deep_view() =~= prev);
        }
        proof {
            reveal(Seq::filter);
            let s1 = all.subrange(0, i + 1);
            assert(s1.drop_last() =~= all.subrange(0, i as int));
            assert(s1.last() == all[i as int]);
            assert(s1.filter(pred) == if pred(all[i as int]) {
                prev.push(all[i as int])
            } else {
                prev
            });
        }
        i = i + 1;
    }
    assert(all.subrange(0, i as int) =~= all);
    proof {
        assert forall|f: Seq<char>|
            #[trigger] r.deep_view().contains(f) <==> all.contains(f) && pred(f) by {
            if r.deep_view().contains(f) {
                all.lemma_filter_contains_rev(pred, f);
                let k = choose|k: int| 0 <= k < r.deep_view().len() && r.deep_view()[k] == f;
                all.lemma_filter_pred(pred, k);
            }
            if all.contains(f) && pred(f) {
                let k = choose|k: int| 0 <= k < all.len() && all[k] == f;
                all.lemma_filter_contains(pred, k);
            }
        }
    }
    r
}

/// Scans `name` from `from` for the next period.
fn find_dot(name: &str, from: usize) -> (r: usize)
    requires
        from <= name@.len(),
    ensures
        r == next_dot(name@, from as int),
{
    let n = name.unicode_len();
    let mut i = from;
    while i < n && name.get_char(i) != '.'
        invariant
            n == name@.len(),
            from <= i <= n,
            next_dot(name@, i as int) == next_dot(name@, from as int),
        decreases n - i,
    {
        i = i + 1;
    }
    i
}

/// The second period-delimited segment of `file_name`, or `None` when the
/// name holds no period.
pub fn extract_file_suffix(file_name: &str) -> (r: Option<&str>)
    ensures
        match r {
            Some(s) => file_suffix(file_name@) == Some(s@),
            None => file_suffix(file_name@) is None,
        },
{
    let n = file_name.unicode_len();
    let first = find_dot(file_name, 0);
    if first >= n {
        return None;
    }
    let end = find_dot(file_name, first + 1);
    proof {
        lemma_next_dot_bounds(file_name@, first + 1);
    }
    Some(file_name.substring_char(first + 1, end))
}

/// The new name `<lot_number>_<suffix>.jpg`.
pub fn compose_new_name(lot_number: &str, suffix: &str) -> (r: String)
    ensures
        r@ == new_name(lot_number@, suffix@),
{
    proof {
        reveal_strlit("_");
        reveal_strlit(".jpg");
    }
    let mut r = String::from_str(lot_number);
    r.append("_");
    r.append(suffix);
    r.append(".jpg");
    assert(r@ =~= new_name(lot_number@, suffix@));
    r
}

} // verus!
