//! Ordering and filtering of the process list.
use vstd::prelude::*;
use crate::text::{
    ascii_lowercase, contains, has_substring, is_ascii_text, lower_text, occurs_at, to_lowercase,
};
use crate::types::{ProcessInfo, SortMode};

verus! {

broadcast use vstd::seq_lib::to_multiset_insert;

/// `a` is listed strictly before `b` under `mode`: higher CPU usage first,
/// higher memory first, or lower PID first.
pub open spec fn comes_before(mode: SortMode, a: ProcessInfo, b: ProcessInfo) -> bool {
    match mode {
        SortMode::Cpu => a.cpu_usage_bits > b.cpu_usage_bits,
        SortMode::Memory => a.memory_kb > b.memory_kb,
        SortMode::Pid => a.pid < b.pid,
    }
}

/// `a` and `b` tie under `mode`: neither is listed before the other.
pub open spec fn same_rank(mode: SortMode, a: ProcessInfo, b: ProcessInfo) -> bool {
    !comes_before(mode, a, b) && !comes_before(mode, b, a)
}

/// `x` placed into `s` after every element that it does not come before.
pub open spec fn insert_by(s: Seq<ProcessInfo>, x: ProcessInfo, mode: SortMode) -> Seq<
    ProcessInfo,
>
    decreases s.len(),
{
    if s.len() > 0 && comes_before(mode, x, s.last()) {
        insert_by(s.drop_last(), x, mode).push(s.last())
    } else {
        s.push(x)
    }
}

/// The stable sort of `s` under `mode`: the elements are taken in order and
/// each is placed after every earlier element that it does not come before.
pub open spec fn sorted_by(s: Seq<ProcessInfo>, mode: SortMode) -> Seq<ProcessInfo>
    decreases s.len(),
{
    if s.len() == 0 {
        s
    } else {
        insert_by(sorted_by(s.drop_last(), mode), s.last(), mode)
    }
}

/// No element of `s` comes before an element listed earlier.
pub open spec fn is_sorted_by(s: Seq<ProcessInfo>, mode: SortMode) -> bool {
    forall|i: int, j: int| 0 <= i < j < s.len() ==> !comes_before(mode, #[trigger] s[j], #[trigger] s[i])
}

/// The elements of `s` that tie with `p` under `mode`, in their order in `s`.
pub open spec fn ties_of(s: Seq<ProcessInfo>, mode: SortMode, p: ProcessInfo) -> Seq<ProcessInfo>
    decreases s.len(),
{
    if s.len() == 0 {
        s
    } else if same_rank(mode, s.last(), p) {
        ties_of(s.drop_last(), mode, p).push(s.last())
    } else {
        ties_of(s.drop_last(), mode, p)
    }
}

/// Where `insert_by` places `x` in `s`.
pub open spec fn insert_index(s: Seq<ProcessInfo>, x: ProcessInfo, mode: SortMode) -> int
    decreases s.len(),
{
    if s.len() > 0 && comes_before(mode, x, s.last()) {
        insert_index(s.drop_last(), x, mode)
    } else {
        s.len() as int
    }
}

/// `insert_by` splits `s` at `insert_index`: before it stand the elements
/// that `x` does not come before (the last of them at least), after it those
/// that `x` comes before.
proof fn lemma_insert_by_split(s: Seq<ProcessInfo>, x: ProcessInfo, mode: SortMode)
    ensures
        0 <= insert_index(s, x, mode) <= s.len(),
        insert_by(s, x, mode) == s.insert(insert_index(s, x, mode), x),
        forall|j: int|
            insert_index(s, x, mode) <= j < s.len() ==> comes_before(mode, x, #[trigger] s[j]),
        insert_index(s, x, mode) > 0 ==> !comes_before(mode, x, s[insert_index(s, x, mode) - 1]),
    decreases s.len(),
{
    if s.len() > 0 && comes_before(mode, x, s.last()) {
        let t = s.drop_last();
        lemma_insert_by_split(t, x, mode);
        let k = insert_index(t, x, mode);
        assert(t.insert(k, x).push(s.last()) =~= s.insert(k, x));
        assert forall|j: int| k <= j < s.len() implies comes_before(mode, x, #[trigger] s[j]) by {
            if j < s.len() - 1 {
                assert(s[j] == t[j]);
            }
        }
    } else {
        assert(s.push(x) =~= s.insert(s.len() as int, x));
    }
}

/// Inserting into a sorted sequence keeps it sorted.
proof fn lemma_insert_by_sorted(s: Seq<ProcessInfo>, x: ProcessInfo, mode: SortMode)
    requires
        is_sorted_by(s, mode),
    ensures
        is_sorted_by(insert_by(s, x, mode), mode),
{
    lemma_insert_by_split(s, x, mode);
    let k = insert_index(s, x, mode);
    let r = insert_by(s, x, mode);
    assert forall|i: int, j: int| 0 <= i < j < r.len() implies !comes_before(
        mode,
        #[trigger] r[j],
        #[trigger] r[i],
    ) by {
        if j < k {
            assert(r[i] == s[i] && r[j] == s[j]);
        } else if j == k {
            assert(r[j] == x && r[i] == s[i]);
            assert(!comes_before(mode, s[k - 1], s[i]) || i == k - 1);
        } else if i < k {
            assert(r[i] == s[i] && r[j] == s[j - 1]);
        } else if i == k {
            assert(r[i] == x && r[j] == s[j - 1]);
            assert(comes_before(mode, x, s[j - 1]));
        } else {
            assert(r[i] == s[i - 1] && r[j] == s[j - 1]);
        }
    }
}

/// The sort's result is sorted.
pub proof fn lemma_sorted_by_is_sorted(s: Seq<ProcessInfo>, mode: SortMode)
    ensures
        is_sorted_by(sorted_by(s, mode), mode),
    decreases s.len(),
{
    if s.len() > 0 {
        lemma_sorted_by_is_sorted(s.drop_last(), mode);
        lemma_insert_by_sorted(sorted_by(s.drop_last(), mode), s.last(), mode);
    }
}

/// The sort's result holds exactly the elements of its input.
pub proof fn lemma_sorted_by_permutes(s: Seq<ProcessInfo>, mode: SortMode)
    ensures
        sorted_by(s, mode).to_multiset() == s.to_multiset(),
    decreases s.len(),
{
    if s.len() > 0 {
        let t = s.drop_last();
        lemma_sorted_by_permutes(t, mode);
        lemma_insert_by_split(sorted_by(t, mode), s.last(), mode);
        assert(s =~= t.insert(t.len() as int, s.last()));
    }
}

/// What the order means for the fields: after sorting by CPU the usage keys
/// never increase down the list, after sorting by memory the memory never
/// increases, and after sorting by PID the PIDs never decrease.
pub proof fn lemma_sorted_by_fields(s: Seq<ProcessInfo>)
    ensures
        forall|i: int, j: int|
            0 <= i < j < sorted_by(s, SortMode::Cpu).len() ==> #[trigger] sorted_by(
                s,
                SortMode::Cpu,
            )[i].cpu_usage_bits >= #[trigger] sorted_by(s, SortMode::Cpu)[j].cpu_usage_bits,
        forall|i: int, j: int|
            0 <= i < j < sorted_by(s, SortMode::Memory).len() ==> #[trigger] sorted_by(
                s,
                SortMode::Memory,
            )[i].memory_kb >= #[trigger] sorted_by(s, SortMode::Memory)[j].memory_kb,
        forall|i: int, j: int|
            0 <= i < j < sorted_by(s, SortMode::Pid).len() ==> #[trigger] sorted_by(
                s,
                SortMode::Pid,
            )[i].pid <= #[trigger] sorted_by(s, SortMode::Pid)[j].pid,
{
    lemma_sorted_by_is_sorted(s, SortMode::Cpu);
    lemma_sorted_by_is_sorted(s, SortMode::Memory);
    lemma_sorted_by_is_sorted(s, SortMode::Pid);
    let c = sorted_by(s, SortMode::Cpu);
    let m = sorted_by(s, SortMode::Memory);
    let p = sorted_by(s, SortMode::Pid);
    assert forall|i: int, j: int| 0 <= i < j < c.len() implies #[trigger] c[i].cpu_usage_bits
        >= #[trigger] c[j].cpu_usage_bits by {
        assert(!comes_before(SortMode::Cpu, c[j], c[i]));
    }
    assert forall|i: int, j: int| 0 <= i < j < m.len() implies #[trigger] m[i].memory_kb
        >= #[trigger] m[j].memory_kb by {
        assert(!comes_before(SortMode::Memory, m[j], m[i]));
    }
    assert forall|i: int, j: int| 0 <= i < j < p.len() implies #[trigger] p[i].pid
        <= #[trigger] p[j].pid by {
        assert(!comes_before(SortMode::Pid, p[j], p[i]));
    }
}

/// Of two processes, sorting puts the one with strictly higher CPU usage
/// (or memory) first, and the one with the strictly lower PID first,
/// whatever order they were given in.
pub proof fn lemma_pair_order(a: ProcessInfo, b: ProcessInfo)
    ensures
        a.cpu_usage_bits > b.cpu_usage_bits ==> sorted_by(seq![b, a], SortMode::Cpu) == seq![a, b]
            && sorted_by(seq![a, b], SortMode::Cpu) == seq![a, b],
        a.memory_kb > b.memory_kb ==> sorted_by(seq![b, a], SortMode::Memory) == seq![a, b]
            && sorted_by(seq![a, b], SortMode::Memory) == seq![a, b],
        a.pid < b.pid ==> sorted_by(seq![b, a], SortMode::Pid) == seq![a, b] && sorted_by(
            seq![a, b],
            SortMode::Pid,
        ) == seq![a, b],
{
    reveal_with_fuel(sorted_by, 3);
    reveal_with_fuel(insert_by, 3);
    let ba = seq![b, a];
    let ab = seq![a, b];
    assert(ba.drop_last() =~= seq![b]);
    assert(ab.drop_last() =~= seq![a]);
    assert(seq![b].drop_last() =~= Seq::<ProcessInfo>::empty());
    assert(seq![a].drop_last() =~= Seq::<ProcessInfo>::empty());
    assert(Seq::<ProcessInfo>::empty().push(b) =~= seq![b]);
    assert(Seq::<ProcessInfo>::empty().push(a) =~= seq![a]);
    assert(seq![a].push(b) =~= ab);
    assert(seq![b].push(a) =~= ba);
}

/// Sorting a sequence that is already sorted leaves it unchanged.
pub proof fn lemma_sorted_by_keeps_sorted(s: Seq<ProcessInfo>, mode: SortMode)
    requires
        is_sorted_by(s, mode),
    ensures
        sorted_by(s, mode) == s,
    decreases s.len(),
{
    if s.len() > 0 {
        let t = s.drop_last();
        assert(is_sorted_by(t, mode)) by {
            assert forall|i: int, j: int| 0 <= i < j < t.len() implies !comes_before(
                mode,
                #[trigger] t[j],
                #[trigger] t[i],
            ) by {
                assert(t[i] == s[i] && t[j] == s[j]);
            }
        }
        lemma_sorted_by_keeps_sorted(t, mode);
        if t.len() > 0 {
            assert(!comes_before(mode, s[s.len() - 1], s[s.len() - 2]));
        }
        assert(t.push(s.last()) =~= s);
    }
}

/// `ties_of` over a concatenation.
proof fn lemma_ties_of_append(a: Seq<ProcessInfo>, b: Seq<ProcessInfo>, mode: SortMode, p: ProcessInfo)
    ensures
        ties_of(a + b, mode, p) == ties_of(a, mode, p) + ties_of(b, mode, p),
    decreases b.len(),
{
    if b.len() == 0 {
        assert(a + b =~= a);
        assert(ties_of(a, mode, p) + ties_of(b, mode, p) =~= ties_of(a, mode, p));
    } else {
        lemma_ties_of_append(a, b.drop_last(), mode, p);
        assert((a + b).drop_last() =~= a + b.drop_last());
        assert((a + b).last() == b.last());
        if same_rank(mode, b.last(), p) {
            assert(ties_of(a, mode, p) + ties_of(b.drop_last(), mode, p).push(b.last()) =~= (
            ties_of(a, mode, p) + ties_of(b.drop_last(), mode, p)).push(b.last()));
        }
    }
}

/// No element of `s` ties with `p` when `x` ties with `p` and `x` comes
/// before every element of `s`.
proof fn lemma_ties_of_none(s: Seq<ProcessInfo>, mode: SortMode, p: ProcessInfo, x: ProcessInfo)
    requires
        same_rank(mode, x, p),
        forall|j: int| 0 <= j < s.len() ==> comes_before(mode, x, #[trigger] s[j]),
    ensures
        ties_of(s, mode, p) == Seq::<ProcessInfo>::empty(),
    decreases s.len(),
{
    if s.len() > 0 {
        let t = s.drop_last();
        assert forall|j: int| 0 <= j < t.len() implies comes_before(mode, x, #[trigger] t[j]) by {
            assert(t[j] == s[j]);
        }
        lemma_ties_of_none(t, mode, p, x);
        assert(comes_before(mode, x, s[s.len() - 1]));
    }
}

/// The sort is stable: the processes that tie with any given process keep
/// the order they had in the input.
pub proof fn lemma_sorted_by_is_stable(s: Seq<ProcessInfo>, mode: SortMode, p: ProcessInfo)
    ensures
        ties_of(sorted_by(s, mode), mode, p) == ties_of(s, mode, p),
    decreases s.len(),
{
    if s.len() > 0 {
        let t = s.drop_last();
        let x = s.last();
        let st = sorted_by(t, mode);
        lemma_sorted_by_is_stable(t, mode, p);
        lemma_insert_by_split(st, x, mode);
        let k = insert_index(st, x, mode);
        assert(st.insert(k, x) =~= st.take(k).push(x) + st.skip(k));
        assert(st =~= st.take(k) + st.skip(k));
        lemma_ties_of_append(st.take(k).push(x), st.skip(k), mode, p);
        lemma_ties_of_append(st.take(k), st.skip(k), mode, p);
        assert(st.take(k).push(x).drop_last() =~= st.take(k));
        if same_rank(mode, x, p) {
            assert forall|j: int| 0 <= j < st.skip(k).len() implies comes_before(
                mode,
                x,
                #[trigger] st.skip(k)[j],
            ) by {
                assert(st.skip(k)[j] == st[k + j]);
            }
            lemma_ties_of_none(st.skip(k), mode, p, x);
            assert(ties_of(st.take(k), mode, p) + Seq::<ProcessInfo>::empty() =~= ties_of(st.take(k), mode, p));
            assert(ties_of(st.take(k), mode, p).push(x) + Seq::<ProcessInfo>::empty() =~= ties_of(st.take(k), mode, p).push(x));
        }
    }
}

/// Whether `a` is listed strictly before `b` under `mode`.
fn comes_before_exec(mode: SortMode, a: &ProcessInfo, b: &ProcessInfo) -> (r: bool)
    ensures
        r == comes_before(mode, *a, *b),
{
    match mode {
        SortMode::Cpu => a.cpu_usage_bits > b.cpu_usage_bits,
        SortMode::Memory => a.memory_kb > b.memory_kb,
        SortMode::Pid => a.pid < b.pid,
    }
}

/// The position at which `x` enters the sorted list `out`.
fn insert_position(out: &Vec<ProcessInfo>, x: &ProcessInfo, mode: SortMode) -> (p: usize)
    ensures
        p <= out@.len(),
        insert_by(out@, *x, mode) == out@.insert(p as int, *x),
{
    let mut p = out.len();
    assert(out@.take(p as int) =~= out@);
    while p > 0 && comes_before_exec(mode, x, &out[p - 1])
        invariant
            p <= out@.len(),
            insert_by(out@, *x, mode) == insert_by(out@.take(p as int), *x, mode) + out@.skip(
                p as int,
            ),
        decreases p,
    {
        let ghost t = out@.take(p as int);
        assert(t.drop_last() =~= out@.take(p - 1));
        assert(t.last() == out@[p - 1]);
        assert(insert_by(t, *x, mode) == insert_by(out@.take(p - 1), *x, mode).push(out@[p - 1]));
        assert(insert_by(out@.take(p - 1), *x, mode).push(out@[p - 1]) + out@.skip(p as int)
            =~= insert_by(out@.take(p - 1), *x, mode) + out@.skip(p - 1));
        p = p - 1;
    }
    assert(insert_by(out@.take(p as int), *x, mode) == out@.take(p as int).push(*x));
    assert(out@.take(p as int).push(*x) + out@.skip(p as int) =~= out@.insert(p as int, *x));
    p
}

/// The processes in the order of `mode`: by CPU usage or memory from the
/// highest, or by PID from the lowest; processes that tie keep their order.
pub fn sort_processes(procs: Vec<ProcessInfo>, mode: SortMode) -> (r: Vec<ProcessInfo>)
    ensures
        r@ == sorted_by(procs@, mode),
{
    let ghost orig = procs@;
    let mut rest = procs;
    let mut out: Vec<ProcessInfo> = Vec::new();
    let n = rest.len();
    let mut i: usize = 0;
    assert(orig.skip(0) =~= orig);
    assert(orig.take(0) =~= Seq::<ProcessInfo>::empty());
    while i < n
        invariant
            n == orig.len(),
            i <= n,
            rest@ == orig.skip(i as int),
            out@ == sorted_by(orig.take(i as int), mode),
        decreases n - i,
    {
        let x = rest.remove(0);
        assert(x == orig[i as int]);
        assert(rest@ =~= orig.skip(i + 1));
        let p = insert_position(&out, &x, mode);
        out.insert(p, x);
        assert(orig.take(i + 1).drop_last() =~= orig.take(i as int));
        i = i + 1;
    }
    assert(orig.take(n as int) =~= orig);
    out
}

/// A process with the given name is shown under `filter`, whose lower-cased
/// form is `lowered`: every process when the filter is empty, otherwise
/// those whose lower-cased name contains `lowered`.
pub open spec fn name_shown(name: Seq<char>, filter: Seq<char>, lowered: Seq<char>) -> bool {
    filter.len() == 0 || has_substring(lower_text(name), lowered)
}

/// A process with the given name is shown under `filter`: every process when
/// the filter is empty, otherwise those whose lower-cased name contains the
/// lower-cased filter.
pub open spec fn name_matches(name: Seq<char>, filter: Seq<char>) -> bool {
    name_shown(name, filter, lower_text(filter))
}

/// The processes of `s` shown under `filter` (lower-cased `lowered`), in
/// their order in `s`.
pub open spec fn matching_with(s: Seq<ProcessInfo>, filter: Seq<char>, lowered: Seq<char>) -> Seq<
    ProcessInfo,
>
    decreases s.len(),
{
    if s.len() == 0 {
        s
    } else if name_shown(s.last().name@, filter, lowered) {
        matching_with(s.drop_last(), filter, lowered).push(s.last())
    } else {
        matching_with(s.drop_last(), filter, lowered)
    }
}

/// The processes of `s` shown under `filter`, in their order in `s`.
pub open spec fn matching(s: Seq<ProcessInfo>, filter: Seq<char>) -> Seq<ProcessInfo> {
    matching_with(s, filter, lower_text(filter))
}

/// The processes shown are a subsequence of the list: every one of them is
/// in the list and passes the filter, and no more are shown than listed.
pub proof fn lemma_matching_subset(s: Seq<ProcessInfo>, filter: Seq<char>, lowered: Seq<char>)
    ensures
        matching_with(s, filter, lowered).len() <= s.len(),
        forall|i: int|
            0 <= i < matching_with(s, filter, lowered).len() ==> s.contains(
                #[trigger] matching_with(s, filter, lowered)[i],
            ) && name_shown(matching_with(s, filter, lowered)[i].name@, filter, lowered),
    decreases s.len(),
{
    if s.len() > 0 {
        let t = s.drop_last();
        lemma_matching_subset(t, filter, lowered);
        let m = matching_with(s, filter, lowered);
        assert forall|i: int| 0 <= i < m.len() implies s.contains(#[trigger] m[i]) && name_shown(
            m[i].name@,
            filter,
            lowered,
        ) by {
            if i < matching_with(t, filter, lowered).len() {
                let e = matching_with(t, filter, lowered)[i];
                assert(m[i] == e);
                let j = choose|j: int| 0 <= j < t.len() && t[j] == e;
                assert(s[j] == e);
            } else {
                assert(m[i] == s.last());
                assert(s[s.len() - 1] == s.last());
            }
        }
    }
}

/// With an empty filter every process is shown.
pub proof fn lemma_matching_empty_filter(s: Seq<ProcessInfo>)
    ensures
        matching(s, Seq::<char>::empty()) == s,
    decreases s.len(),
{
    lemma_matching_with_empty(s, lower_text(Seq::<char>::empty()));
}

proof fn lemma_matching_with_empty(s: Seq<ProcessInfo>, lowered: Seq<char>)
    ensures
        matching_with(s, Seq::<char>::empty(), lowered) == s,
    decreases s.len(),
{
    if s.len() > 0 {
        lemma_matching_with_empty(s.drop_last(), lowered);
        assert(s.drop_last().push(s.last()) =~= s);
    }
}

/// An occurrence of an occurrence is an occurrence.
proof fn lemma_substring_trans(a: Seq<char>, b: Seq<char>, c: Seq<char>)
    requires
        has_substring(a, b),
        has_substring(b, c),
    ensures
        has_substring(a, c),
{
    let i = choose|i: int| occurs_at(a, b, i);
    let k = choose|k: int| occurs_at(b, c, k);
    assert(a.subrange(i + k, i + k + c.len()) =~= b.subrange(k, k + c.len()));
    assert(occurs_at(a, c, i + k));
}

/// Lower-casing character by character keeps occurrences.
proof fn lemma_ascii_lowercase_substring(f2: Seq<char>, f1: Seq<char>)
    requires
        has_substring(f2, f1),
    ensures
        has_substring(ascii_lowercase(f2), ascii_lowercase(f1)),
{
    let k = choose|k: int| occurs_at(f2, f1, k);
    assert(ascii_lowercase(f2).subrange(k, k + f1.len()) =~= ascii_lowercase(f1)) by {
        assert forall|j: int| 0 <= j < f1.len() implies ascii_lowercase(f2).subrange(
            k,
            k + f1.len(),
        )[j] == ascii_lowercase(f1)[j] by {
            assert(f2.subrange(k, k + f1.len())[j] == f1[j]);
        }
    }
    assert(occurs_at(ascii_lowercase(f2), ascii_lowercase(f1), k));
}

/// For ASCII filters, where the shorter filter occurs in the longer one
/// (as when more characters are typed), a process shown under the longer
/// filter is shown under the shorter one.
pub proof fn lemma_name_shown_longer_filter(name: Seq<char>, f1: Seq<char>, f2: Seq<char>)
    requires
        is_ascii_text(f1),
        is_ascii_text(f2),
        has_substring(f2, f1),
        name_shown(name, f2, ascii_lowercase(f2)),
    ensures
        name_shown(name, f1, ascii_lowercase(f1)),
{
    if f1.len() > 0 {
        let k = choose|k: int| occurs_at(f2, f1, k);
        assert(f2.len() > 0);
        lemma_ascii_lowercase_substring(f2, f1);
        lemma_substring_trans(lower_text(name), ascii_lowercase(f2), ascii_lowercase(f1));
    }
}

/// Typing more of an ASCII filter never brings a process back: where `f1`
/// occurs in `f2` (as when `f2` is `f1` with characters added), the
/// processes shown under `f2` are those shown under `f1` that the longer
/// filter keeps, in the same order, and there are no more of them.
pub proof fn lemma_longer_filter_shows_fewer(s: Seq<ProcessInfo>, f1: Seq<char>, f2: Seq<char>)
    requires
        is_ascii_text(f1),
        is_ascii_text(f2),
        has_substring(f2, f1),
    ensures
        matching(s, f2) == matching(matching(s, f1), f2),
        matching(s, f2).len() <= matching(s, f1).len(),
    decreases s.len(),
{
    let l1 = ascii_lowercase(f1);
    let l2 = ascii_lowercase(f2);
    if s.len() > 0 {
        let t = s.drop_last();
        let x = s.last();
        lemma_longer_filter_shows_fewer(t, f1, f2);
        let m1t = matching_with(t, f1, l1);
        if name_shown(x.name@, f2, l2) {
            lemma_name_shown_longer_filter(x.name@, f1, f2);
            assert(m1t.push(x).drop_last() =~= m1t);
        } else if name_shown(x.name@, f1, l1) {
            assert(m1t.push(x).drop_last() =~= m1t);
        }
    }
    lemma_matching_subset(matching_with(s, f1, l1), f2, l2);
}

/// The processes of `procs` shown under `filter`; see `name_matches`.
pub fn filter_processes<'a>(procs: &'a Vec<ProcessInfo>, filter: &str) -> (r: Vec<&'a ProcessInfo>)
    ensures
        r@.map_values(|p: &ProcessInfo| *p) == matching(procs@, filter@),
{
    let mut out: Vec<&'a ProcessInfo> = Vec::new();
    let empty = filter.unicode_len() == 0;
    let lowered_filter = to_lowercase(filter);
    let mut i: usize = 0;
    assert(procs@.take(0) =~= Seq::<ProcessInfo>::empty());
    assert(out@.map_values(|p: &ProcessInfo| *p) =~= Seq::<ProcessInfo>::empty());
    while i < procs.len()
        invariant
            i <= procs@.len(),
            empty == (filter@.len() == 0),
            lowered_filter@ == lower_text(filter@),
            out@.map_values(|p: &ProcessInfo| *p) == matching_with(
                procs@.take(i as int),
                filter@,
                lowered_filter@,
            ),
        decreases procs.len() - i,
    {
        let p = &procs[i];
        let shown = if empty {
            true
        } else {
            let lowered_name = to_lowercase(p.name.as_str());
            contains(lowered_name.as_str(), lowered_filter.as_str())
        };
        let ghost before = out@;
        assert(procs@.take(i + 1).drop_last() =~= procs@.take(i as int));
        assert(procs@.take(i + 1).last() == procs@[i as int]);
        if shown {
            out.push(p);
            assert(out@.map_values(|p: &ProcessInfo| *p) =~= before.map_values(
                |p: &ProcessInfo| *p,
            ).push(*p));
        }
        i = i + 1;
    }
    assert(procs@.take(procs@.len() as int) =~= procs@);
    out
}

} // verus!
