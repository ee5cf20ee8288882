//! Small verified helpers on names and `/`-separated paths.

use vstd::prelude::*;
use vstd::string::*;

verus! {

/// The separator of path segments and of the parts of a task name.
pub open spec fn slash() -> char {
    '/'
}

/// The position of the first `/` in `s`, or `s.len()` when there is none.
pub open spec fn first_slash(s: Seq<char>) -> int
    decreases s.len(),
{
    if s.len() == 0 {
        0
    } else if s[0] == slash() {
        0
    } else {
        1 + first_slash(s.subrange(1, s.len() as int))
    }
}

/// The segments of `s` between its `/` characters. There is always at least one segment;
/// two adjacent separators, or one at either end, give an empty segment.
pub open spec fn split_on_slash(s: Seq<char>) -> Seq<Seq<char>>
    decreases s.len(),
{
    let i = first_slash(s);
    if 0 <= i < s.len() {
        seq![s.subrange(0, i)] + split_on_slash(s.subrange(i + 1, s.len() as int))
    } else {
        seq![s]
    }
}

/// `first_slash` is the position of a `/` with none before it, or the length of a text
/// without one.
pub proof fn lemma_first_slash(s: Seq<char>)
    ensures
        0 <= first_slash(s) <= s.len(),
        first_slash(s) < s.len() ==> s[first_slash(s)] == slash(),
        forall|k: int| 0 <= k < first_slash(s) ==> s[k] != slash(),
        first_slash(s) == s.len() <==> !s.contains(slash()),
    decreases s.len(),
{
    if s.len() == 0 {
    } else if s[0] == slash() {
        assert(s.contains(slash()));
    } else {
        let t = s.subrange(1, s.len() as int);
        lemma_first_slash(t);
        assert forall|k: int| 0 <= k < first_slash(s) implies s[k] != slash() by {
            if k > 0 {
                assert(t[k - 1] == s[k]);
            }
        }
        if first_slash(s) < s.len() {
            assert(t[first_slash(t)] == s[first_slash(s)]);
            assert(s.contains(slash()));
        } else {
            if s.contains(slash()) {
                let j = choose|j: int| 0 <= j < s.len() && s[j] == slash();
                assert(t[j - 1] == s[j]);
                assert(t.contains(slash()));
            }
        }
    }
}

/// No segment of a split path holds a `/`.
pub proof fn lemma_split_segments_have_no_slash(s: Seq<char>)
    ensures
        split_on_slash(s).len() >= 1,
        forall|k: int|
            0 <= k < split_on_slash(s).len() ==> !(#[trigger] split_on_slash(s)[k]).contains(
                slash(),
            ),
    decreases s.len(),
{
    lemma_first_slash(s);
    let i = first_slash(s);
    if 0 <= i < s.len() {
        let rest = s.subrange(i + 1, s.len() as int);
        lemma_split_segments_have_no_slash(rest);
        let head = s.subrange(0, i);
        assert(!head.contains(slash())) by {
            if head.contains(slash()) {
                let j = choose|j: int| 0 <= j < head.len() && head[j] == slash();
                assert(s[j] == slash());
            }
        }
        assert forall|k: int| 0 <= k < split_on_slash(s).len() implies !(
        #[trigger] split_on_slash(s)[k]).contains(slash()) by {
            if k == 0 {
            } else {
                assert(split_on_slash(s)[k] == split_on_slash(rest)[k - 1]);
            }
        }
    }
}

/// Whether `s` holds a `/`.
pub fn contains_slash(s: &str) -> (found: bool)
    ensures
        found == s@.contains(slash()),
{
    let n = s.unicode_len();
    let mut i: usize = 0;
    while i < n
        invariant
            n == s@.len(),
            i <= n,
            forall|k: int| 0 <= k < i ==> s@[k] != slash(),
        decreases n - i,
    {
        if s.get_char(i) == '/' {
            return true;
        }
        i += 1;
    }
    false
}

/// `left` followed by `right`, as a new string.
pub fn concat(left: &str, right: &str) -> (joined: String)
    ensures
        joined@ == left@ + right@,
{
    let mut joined = String::from_str(left);
    joined.append(right);
    joined
}

/// Splits a `/`-separated path into its segments.
pub fn split_path(path: &str) -> (segments: Vec<String>)
    ensures
        segments.deep_view() == split_on_slash(path@),
{
    let n = path.unicode_len();
    let mut segments: Vec<String> = Vec::new();
    let mut start: usize = 0;
    let mut i: usize = 0;
    proof {
        assert(path@.subrange(0, n as int) == path@);
        assert(segments.deep_view() == Seq::<Seq<char>>::empty());
    }
    while i < n
        invariant
            n == path@.len(),
            start <= i <= n,
            forall|k: int| start <= k < i ==> path@[k] != slash(),
            split_on_slash(path@) == segments.deep_view() + split_on_slash(
                path@.subrange(start as int, n as int),
            ),
        decreases n - i,
    {
        if path.get_char(i) == '/' {
            let segment = String::from_str(path.substring_char(start, i));
            proof {
                let rest = path@.subrange(start as int, n as int);
                lemma_first_slash(rest);
                assert(rest[i - start] == slash());
                assert(first_slash(rest) == i - start) by {
                    if first_slash(rest) < i - start {
                        assert(rest[first_slash(rest)] == path@[start + first_slash(rest)]);
                    }
                    if first_slash(rest) > i - start {
                    }
                }
                assert(rest.subrange(0, i - start) == path@.subrange(start as int, i as int));
                assert(rest.subrange(i - start + 1, rest.len() as int) == path@.subrange(
                    i + 1,
                    n as int,
                ));
                assert(segments.deep_view().push(segment@) + split_on_slash(
                    path@.subrange(i + 1, n as int),
                ) == segments.deep_view() + split_on_slash(rest));
            }
            let ghost before = segments.deep_view();
            segments.push(segment);
            assert(segments.deep_view() == before.push(segment@));
            start = i + 1;
        }
        i += 1;
    }
    let last = String::from_str(path.substring_char(start, n));
    proof {
        let rest = path@.subrange(start as int, n as int);
        lemma_first_slash(rest);
        assert(!rest.contains(slash())) by {
            if rest.contains(slash()) {
                let j = choose|j: int| 0 <= j < rest.len() && rest[j] == slash();
                assert(path@[start + j] == slash());
            }
        }
        assert(split_on_slash(rest) == seq![rest]);
    }
    let ghost before = segments.deep_view();
    segments.push(last);
    assert(segments.deep_view() == before.push(last@));
    segments
}

/// The position of the first `name` in `names`, or `names.len()` when there is none.
pub open spec fn index_of(names: Seq<Seq<char>>, name: Seq<char>) -> int
    decreases names.len(),
{
    if names.len() == 0 {
        0
    } else if names[0] == name {
        0
    } else {
        1 + index_of(names.subrange(1, names.len() as int), name)
    }
}

/// Whether no name occurs twice.
pub open spec fn distinct(names: Seq<Seq<char>>) -> bool {
    forall|i: int, j: int| 0 <= i < j < names.len() ==> names[i] != names[j]
}

/// `index_of` is the position of the name with no equal name before it, or the number of
/// names where the name is not among them.
pub proof fn lemma_index_of(names: Seq<Seq<char>>, name: Seq<char>)
    ensures
        0 <= index_of(names, name) <= names.len(),
        index_of(names, name) < names.len() ==> names[index_of(names, name)] == name,
        forall|k: int| 0 <= k < index_of(names, name) ==> names[k] != name,
        index_of(names, name) < names.len() <==> names.contains(name),
    decreases names.len(),
{
    if names.len() == 0 {
    } else if names[0] == name {
    } else {
        let rest = names.subrange(1, names.len() as int);
        lemma_index_of(rest, name);
        assert forall|k: int| 0 <= k < index_of(names, name) implies names[k] != name by {
            if k > 0 {
                assert(rest[k - 1] == names[k]);
            }
        }
        if index_of(names, name) < names.len() {
            assert(rest[index_of(rest, name)] == names[index_of(names, name)]);
        } else if names.contains(name) {
            let j = choose|j: int| 0 <= j < names.len() && names[j] == name;
            assert(rest[j - 1] == names[j]);
        }
    }
}

/// Where names are distinct, each name is found at its own position.
pub proof fn lemma_index_of_distinct(names: Seq<Seq<char>>, j: int)
    requires
        distinct(names),
        0 <= j < names.len(),
    ensures
        index_of(names, names[j]) == j,
{
    lemma_index_of(names, names[j]);
    let found = index_of(names, names[j]);
    if found < j {
    } else if found > j {
    }
}

/// The position of the first of `names` that holds a `/`, or `names.len()` when none does.
pub open spec fn first_slashed(names: Seq<Seq<char>>) -> int
    decreases names.len(),
{
    if names.len() == 0 {
        0
    } else if names[0].contains(slash()) {
        0
    } else {
        1 + first_slashed(names.subrange(1, names.len() as int))
    }
}

/// `first_slashed` is the position of a name that holds a `/` with none such before it, or
/// the number of names where none holds one.
pub proof fn lemma_first_slashed(names: Seq<Seq<char>>)
    ensures
        0 <= first_slashed(names) <= names.len(),
        first_slashed(names) < names.len() ==> names[first_slashed(names)].contains(slash()),
        forall|k: int| 0 <= k < first_slashed(names) ==> !(#[trigger] names[k]).contains(slash()),
    decreases names.len(),
{
    if names.len() == 0 {
    } else if names[0].contains(slash()) {
    } else {
        let rest = names.subrange(1, names.len() as int);
        lemma_first_slashed(rest);
        assert forall|k: int| 0 <= k < first_slashed(names) implies !(#[trigger] names[k]).contains(
            slash(),
        ) by {
            if k > 0 {
                assert(rest[k - 1] == names[k]);
            }
        }
        if first_slashed(names) < names.len() {
            assert(rest[first_slashed(rest)] == names[first_slashed(names)]);
        }
    }
}

/// Where `at` is the first position of `names` that holds a `/`, it is `first_slashed`.
pub proof fn lemma_first_slashed_is(names: Seq<Seq<char>>, at: int)
    requires
        0 <= at <= names.len(),
        at < names.len() ==> names[at].contains(slash()),
        forall|k: int| 0 <= k < at ==> !(#[trigger] names[k]).contains(slash()),
    ensures
        first_slashed(names) == at,
{
    lemma_first_slashed(names);
    let first = first_slashed(names);
    if first < at {
        assert(!names[first].contains(slash()));
    }
    if first > at {
        assert(!names[at].contains(slash()));
    }
}

/// Whether two strings hold the same characters.
pub fn str_equal(left: &str, right: &str) -> (same: bool)
    ensures
        same == (left@ == right@),
{
    let n = left.unicode_len();
    if n != right.unicode_len() {
        return false;
    }
    let mut i: usize = 0;
    while i < n
        invariant
            n == left@.len(),
            n == right@.len(),
            i <= n,
            forall|k: int| 0 <= k < i ==> left@[k] == right@[k],
        decreases n - i,
    {
        if left.get_char(i) != right.get_char(i) {
            return false;
        }
        i += 1;
    }
    assert(left@ =~= right@);
    true
}

/// The segments written one after the other with a `/` between each two.
pub open spec fn join_with_slash(segments: Seq<Seq<char>>) -> Seq<char>
    decreases segments.len(),
{
    if segments.len() == 0 {
        Seq::empty()
    } else if segments.len() == 1 {
        segments[0]
    } else {
        join_with_slash(segments.drop_last()) + seq![slash()] + segments.last()
    }
}

/// Joining a first segment to others that are already joined.
pub proof fn lemma_join_front(first: Seq<char>, rest: Seq<Seq<char>>)
    requires
        rest.len() >= 1,
    ensures
        join_with_slash(seq![first] + rest) == first + seq![slash()] + join_with_slash(rest),
    decreases rest.len(),
{
    let whole = seq![first] + rest;
    assert(whole.drop_last() =~= seq![first] + rest.drop_last());
    assert(whole.last() == rest.last());
    if rest.len() == 1 {
        assert(whole.drop_last() =~= seq![first]);
        assert(join_with_slash(whole.drop_last()) == first);
    } else {
        lemma_join_front(first, rest.drop_last());
        assert(join_with_slash(whole) =~= first + seq![slash()] + join_with_slash(rest));
    }
}

/// Splitting a text at its `/` characters and joining the segments again gives the text.
pub proof fn lemma_join_split(s: Seq<char>)
    ensures
        join_with_slash(split_on_slash(s)) == s,
    decreases s.len(),
{
    lemma_first_slash(s);
    let i = first_slash(s);
    if 0 <= i < s.len() {
        let rest = s.subrange(i + 1, s.len() as int);
        lemma_join_split(rest);
        lemma_split_segments_have_no_slash(rest);
        lemma_join_front(s.subrange(0, i), split_on_slash(rest));
        assert(s.subrange(0, i) + seq![slash()] + rest =~= s);
    } else {
        assert(split_on_slash(s) == seq![s]);
    }
}

/// The segments joined with a `/` between each two.
pub fn join_path(segments: &Vec<String>) -> (joined: String)
    ensures
        joined@ == join_with_slash(segments.deep_view()),
{
    let ghost all = segments.deep_view();
    let mut joined = String::new();
    let mut k: usize = 0;
    while k < segments.len()
        invariant
            all == segments.deep_view(),
            k <= segments.len(),
            joined@ == join_with_slash(all.take(k as int)),
        decreases segments.len() - k,
    {
        proof {
            let more = all.take(k as int + 1);
            assert(more.drop_last() =~= all.take(k as int));
            assert(more.last() == segments@[k as int]@);
            reveal_strlit("/");
            assert("/"@ =~= seq![slash()]);
        }
        if k > 0 {
            joined.append("/");
        }
        joined.append(segments[k].as_str());
        proof {
            if k == 0 {
                assert(joined@ =~= segments@[0]@);
            }
        }
        k += 1;
    }
    assert(all.take(segments.len() as int) =~= all);
    joined
}

} // verus!
