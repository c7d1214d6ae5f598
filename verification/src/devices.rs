//! Which network interfaces and disks are shown, and the order of disks.
use vstd::prelude::*;
use crate::text::{chars_of, has_prefix, same_text, starts_with};
use crate::types::{DiskInfo, NetworkInfo};

verus! {

broadcast use vstd::seq_lib::to_multiset_insert;

/// Interfaces with these names are loopback devices and are not shown.
pub open spec fn is_loopback_name(name: Seq<char>) -> bool {
    name == "lo"@ || name == "lo0"@
}

/// Whether the interface `name` is a loopback device.
pub fn is_loopback(name: &str) -> (r: bool)
    ensures
        r == is_loopback_name(name@),
{
    same_text(name, "lo") || same_text(name, "lo0")
}

/// Whether a disk mounted at `mount_point` is a macOS system volume, which
/// is not shown.
pub fn is_system_volume(mount_point: &str) -> (r: bool)
    ensures
        r == has_prefix(mount_point@, "/System/Volumes"@),
{
    starts_with(mount_point, "/System/Volumes")
}

/// The interfaces of `s` that are shown: all but the loopback devices, in
/// their order in `s`.
pub open spec fn non_loopback(s: Seq<NetworkInfo>) -> Seq<NetworkInfo>
    decreases s.len(),
{
    if s.len() == 0 {
        s
    } else if is_loopback_name(s.last().name@) {
        non_loopback(s.drop_last())
    } else {
        non_loopback(s.drop_last()).push(s.last())
    }
}

/// The interfaces shown in the network panel: the loopback devices are left
/// out, the others keep their order.
pub fn shown_interfaces(stats: Vec<NetworkInfo>) -> (r: Vec<NetworkInfo>)
    ensures
        r@ == non_loopback(stats@),
{
    let ghost orig = stats@;
    let mut rest = stats;
    let mut out: Vec<NetworkInfo> = Vec::new();
    let n = rest.len();
    let mut i: usize = 0;
    assert(orig.skip(0) =~= orig);
    assert(orig.take(0) =~= Seq::<NetworkInfo>::empty());
    while i < n
        invariant
            n == orig.len(),
            i <= n,
            rest@ == orig.skip(i as int),
            out@ == non_loopback(orig.take(i as int)),
        decreases n - i,
    {
        let x = rest.remove(0);
        assert(x == orig[i as int]);
        assert(rest@ =~= orig.skip(i + 1));
        assert(orig.take(i + 1).drop_last() =~= orig.take(i as int));
        if !is_loopback(x.name.as_str()) {
            out.push(x);
        }
        i = i + 1;
    }
    assert(orig.take(n as int) =~= orig);
    out
}

/// The disks of `s` that are shown: all but the macOS system volumes, in
/// their order in `s`.
pub open spec fn off_system_volumes(s: Seq<DiskInfo>) -> Seq<DiskInfo>
    decreases s.len(),
{
    if s.len() == 0 {
        s
    } else if has_prefix(s.last().mount_point@, "/System/Volumes"@) {
        off_system_volumes(s.drop_last())
    } else {
        off_system_volumes(s.drop_last()).push(s.last())
    }
}

/// No shown interface is a loopback device, and no more are shown than
/// given.
pub proof fn lemma_non_loopback_shown(s: Seq<NetworkInfo>)
    ensures
        non_loopback(s).len() <= s.len(),
        forall|i: int|
            0 <= i < non_loopback(s).len() ==> !is_loopback_name(#[trigger] non_loopback(s)[i].name@),
    decreases s.len(),
{
    if s.len() > 0 {
        lemma_non_loopback_shown(s.drop_last());
    }
}

/// Every shown interface is one of the given interfaces, unchanged (name
/// and both rates), and every given interface that is not a loopback device
/// is shown.
pub proof fn lemma_interfaces_kept_unchanged(s: Seq<NetworkInfo>)
    ensures
        forall|i: int| 0 <= i < non_loopback(s).len() ==> s.contains(#[trigger] non_loopback(s)[i]),
        forall|j: int|
            0 <= j < s.len() && !is_loopback_name(s[j].name@) ==> non_loopback(s).contains(
                #[trigger] s[j],
            ),
    decreases s.len(),
{
    if s.len() > 0 {
        let t = s.drop_last();
        lemma_interfaces_kept_unchanged(t);
        let m = non_loopback(s);
        let mt = non_loopback(t);
        assert forall|i: int| 0 <= i < m.len() implies s.contains(#[trigger] m[i]) by {
            if i < mt.len() {
                assert(m[i] == mt[i]);
                let k = choose|k: int| 0 <= k < t.len() && t[k] == mt[i];
                assert(s[k] == t[k]);
            } else {
                assert(m[i] == s.last());
                assert(s[s.len() - 1] == s.last());
            }
        }
        assert forall|j: int| 0 <= j < s.len() && !is_loopback_name(s[j].name@) implies m.contains(
            #[trigger] s[j],
        ) by {
            if j < s.len() - 1 {
                assert(t[j] == s[j]);
                assert(mt.contains(t[j]));
                let k = choose|k: int| 0 <= k < mt.len() && mt[k] == t[j];
                assert(m[k] == mt[k]);
            } else {
                assert(m[m.len() - 1] == s.last());
            }
        }
    }
}

/// Every kept disk is one of the given disks, unchanged (name, mount point
/// and both rates), and every given disk that is not a system volume is
/// kept.
proof fn lemma_disks_kept_unchanged(s: Seq<DiskInfo>)
    ensures
        forall|i: int|
            0 <= i < off_system_volumes(s).len() ==> s.contains(#[trigger] off_system_volumes(s)[i]),
        forall|j: int|
            0 <= j < s.len() && !has_prefix(s[j].mount_point@, "/System/Volumes"@)
                ==> off_system_volumes(s).contains(#[trigger] s[j]),
    decreases s.len(),
{
    if s.len() > 0 {
        let t = s.drop_last();
        lemma_disks_kept_unchanged(t);
        let m = off_system_volumes(s);
        let mt = off_system_volumes(t);
        assert forall|i: int| 0 <= i < m.len() implies s.contains(#[trigger] m[i]) by {
            if i < mt.len() {
                assert(m[i] == mt[i]);
                let k = choose|k: int| 0 <= k < t.len() && t[k] == mt[i];
                assert(s[k] == t[k]);
            } else {
                assert(m[i] == s.last());
                assert(s[s.len() - 1] == s.last());
            }
        }
        assert forall|j: int|
            0 <= j < s.len() && !has_prefix(s[j].mount_point@, "/System/Volumes"@) implies m.contains(
            #[trigger] s[j],
        ) by {
            if j < s.len() - 1 {
                assert(t[j] == s[j]);
                assert(mt.contains(t[j]));
                let k = choose|k: int| 0 <= k < mt.len() && mt[k] == t[j];
                assert(m[k] == mt[k]);
            } else {
                assert(m[m.len() - 1] == s.last());
            }
        }
    }
}

/// The disk panel shows exactly the given disks that are not system
/// volumes, each unchanged (name, mount point and both rates), in name
/// order.
pub proof fn lemma_shown_disks_unchanged(s: Seq<DiskInfo>)
    ensures
        forall|i: int|
            0 <= i < sorted_by_name(off_system_volumes(s)).len() ==> s.contains(
                #[trigger] sorted_by_name(off_system_volumes(s))[i],
            ),
        forall|j: int|
            0 <= j < s.len() && !has_prefix(s[j].mount_point@, "/System/Volumes"@)
                ==> sorted_by_name(off_system_volumes(s)).contains(#[trigger] s[j]),
        sorted_by_name(off_system_volumes(s)).len() <= s.len(),
        forall|i: int, j: int|
            0 <= i < j < sorted_by_name(off_system_volumes(s)).len() ==> !text_less(
                #[trigger] sorted_by_name(off_system_volumes(s))[j].name@,
                #[trigger] sorted_by_name(off_system_volumes(s))[i].name@,
            ),
{
    broadcast use vstd::seq_lib::to_multiset_contains;
    broadcast use vstd::seq_lib::to_multiset_len;

    let kept = off_system_volumes(s);
    let shown = sorted_by_name(kept);
    lemma_disks_kept_unchanged(s);
    lemma_off_system_volumes(s);
    lemma_sorted_by_name_permutes(kept);
    lemma_sorted_by_name_is_sorted(kept);
    assert(shown.len() == kept.len()) by {
        assert(shown.to_multiset().len() == kept.to_multiset().len());
    }
    assert forall|i: int| 0 <= i < shown.len() implies s.contains(#[trigger] shown[i]) by {
        assert(shown.contains(shown[i]));
        assert(shown.to_multiset().count(shown[i]) > 0);
        assert(kept.contains(shown[i]));
        let k = choose|k: int| 0 <= k < kept.len() && kept[k] == shown[i];
        assert(s.contains(kept[k]));
    }
    assert forall|j: int|
        0 <= j < s.len() && !has_prefix(s[j].mount_point@, "/System/Volumes"@) implies shown.contains(
        #[trigger] s[j],
    ) by {
        assert(kept.contains(s[j]));
        assert(kept.to_multiset().count(s[j]) > 0);
        assert(shown.to_multiset().count(s[j]) > 0);
    }
}

/// No kept disk is mounted under `/System/Volumes`, and no more disks are
/// kept than given.
proof fn lemma_off_system_volumes(s: Seq<DiskInfo>)
    ensures
        off_system_volumes(s).len() <= s.len(),
        forall|i: int|
            0 <= i < off_system_volumes(s).len() ==> !has_prefix(
                #[trigger] off_system_volumes(s)[i].mount_point@,
                "/System/Volumes"@,
            ),
    decreases s.len(),
{
    if s.len() > 0 {
        lemma_off_system_volumes(s.drop_last());
    }
}

/// The shown disks are in name order, hold exactly the disks that are not
/// system volumes, and none of them is a system volume.
pub proof fn lemma_shown_disks(s: Seq<DiskInfo>)
    ensures
        is_sorted_by_name(sorted_by_name(off_system_volumes(s))),
        sorted_by_name(off_system_volumes(s)).to_multiset() == off_system_volumes(s).to_multiset(),
        forall|i: int|
            0 <= i < sorted_by_name(off_system_volumes(s)).len() ==> !has_prefix(
                #[trigger] sorted_by_name(off_system_volumes(s))[i].mount_point@,
                "/System/Volumes"@,
            ),
{
    broadcast use vstd::seq_lib::to_multiset_contains;

    let kept = off_system_volumes(s);
    let shown = sorted_by_name(kept);
    lemma_sorted_by_name_is_sorted(kept);
    lemma_sorted_by_name_permutes(kept);
    lemma_off_system_volumes(s);
    assert forall|i: int| 0 <= i < shown.len() implies !has_prefix(
        #[trigger] shown[i].mount_point@,
        "/System/Volumes"@,
    ) by {
        assert(shown.contains(shown[i]));
        assert(shown.to_multiset().count(shown[i]) > 0);
        assert(kept.contains(shown[i]));
        let j = choose|j: int| 0 <= j < kept.len() && kept[j] == shown[i];
        assert(!has_prefix(kept[j].mount_point@, "/System/Volumes"@));
    }
}

/// The disks of `s` that are not system volumes, in their order in `s`.
fn drop_system_volumes(disks: Vec<DiskInfo>) -> (r: Vec<DiskInfo>)
    ensures
        r@ == off_system_volumes(disks@),
{
    let ghost orig = disks@;
    let mut rest = disks;
    let mut out: Vec<DiskInfo> = Vec::new();
    let n = rest.len();
    let mut i: usize = 0;
    assert(orig.skip(0) =~= orig);
    assert(orig.take(0) =~= Seq::<DiskInfo>::empty());
    while i < n
        invariant
            n == orig.len(),
            i <= n,
            rest@ == orig.skip(i as int),
            out@ == off_system_volumes(orig.take(i as int)),
        decreases n - i,
    {
        let x = rest.remove(0);
        assert(x == orig[i as int]);
        assert(rest@ =~= orig.skip(i + 1));
        assert(orig.take(i + 1).drop_last() =~= orig.take(i as int));
        if !is_system_volume(x.mount_point.as_str()) {
            out.push(x);
        }
        i = i + 1;
    }
    assert(orig.take(n as int) =~= orig);
    out
}

/// The disks shown in the disk panel: the system volumes are left out and
/// the others are put in the order of their names (disks with the same name
/// keep their order).
pub fn shown_disks(disks: Vec<DiskInfo>) -> (r: Vec<DiskInfo>)
    ensures
        r@ == sorted_by_name(off_system_volumes(disks@)),
{
    sort_disks_by_name(drop_system_volumes(disks))
}

/// The last component of a path, as `std::path::Path::file_name` finds it
/// (`None` for a path such as `/` or one ending in `..`).
pub uninterp spec fn path_file_name(path: Seq<char>) -> Option<Seq<char>>;

/// Calls `Path::file_name` on `path`. The contract names the result: it is
/// a function of the path's characters alone; how the path is split into
/// components is not stated.
#[verifier::external_body]
fn file_name(path: &str) -> (r: Option<String>)
    ensures
        match r {
            Some(n) => path_file_name(path@) == Some(n@),
            None => path_file_name(path@) is None,
        },
{
    std::path::Path::new(path).file_name().map(|n| n.to_string_lossy().into_owned())
}

/// The name shown for a disk device: the last component of its path, or
/// the whole path when it has none.
pub fn device_name(path: &str) -> (r: String)
    ensures
        r@ == match path_file_name(path@) {
            Some(n) => n,
            None => path@,
        },
{
    name_or_path(file_name(path), path)
}

/// The last path component when there is one, otherwise the whole path.
pub fn name_or_path(component: Option<String>, path: &str) -> (r: String)
    ensures
        r@ == match component {
            Some(n) => n@,
            None => path@,
        },
{
    match component {
        Some(n) => n,
        None => String::from_str(path),
    }
}

/// `a` sorts before `b`: compared character by character (by code point),
/// the first difference decides, and a proper prefix sorts first.
pub open spec fn text_less(a: Seq<char>, b: Seq<char>) -> bool
    decreases a.len(),
{
    if a.len() == 0 {
        b.len() > 0
    } else if b.len() == 0 {
        false
    } else if a[0] != b[0] {
        a[0] < b[0]
    } else {
        text_less(a.drop_first(), b.drop_first())
    }
}

/// `text_less` is a strict total order.
pub proof fn lemma_text_less_order(a: Seq<char>, b: Seq<char>, c: Seq<char>)
    ensures
        !(text_less(a, b) && text_less(b, a)),
        text_less(a, b) || text_less(b, a) || a == b,
        text_less(a, b) && text_less(b, c) ==> text_less(a, c),
    decreases a.len(),
{
    if a.len() > 0 && b.len() > 0 && c.len() > 0 {
        lemma_text_less_order(a.drop_first(), b.drop_first(), c.drop_first());
        if a[0] == b[0] && !text_less(a.drop_first(), b.drop_first()) && !text_less(
            b.drop_first(),
            a.drop_first(),
        ) {
            assert(a =~= seq![a[0]] + a.drop_first());
            assert(b =~= seq![b[0]] + b.drop_first());
        }
    } else if a.len() > 0 && b.len() > 0 {
        lemma_text_less_order(a.drop_first(), b.drop_first(), c);
        if a[0] == b[0] && !text_less(a.drop_first(), b.drop_first()) && !text_less(
            b.drop_first(),
            a.drop_first(),
        ) {
            assert(a =~= seq![a[0]] + a.drop_first());
            assert(b =~= seq![b[0]] + b.drop_first());
        }
    } else if a.len() == 0 && b.len() == 0 {
        assert(a =~= b);
    }
}

/// Whether `a` sorts before `b`; see `text_less`.
fn text_less_exec(a: &Vec<char>, b: &Vec<char>) -> (r: bool)
    ensures
        r == text_less(a@, b@),
{
    let mut i: usize = 0;
    assert(a@.skip(0) =~= a@);
    assert(b@.skip(0) =~= b@);
    while i < a.len() && i < b.len() && a[i] == b[i]
        invariant
            i <= a@.len(),
            i <= b@.len(),
            text_less(a@.skip(i as int), b@.skip(i as int)) == text_less(a@, b@),
        decreases a.len() - i,
    {
        assert(a@.skip(i as int).drop_first() =~= a@.skip(i + 1));
        assert(b@.skip(i as int).drop_first() =~= b@.skip(i + 1));
        i = i + 1;
    }
    if i == a.len() {
        i < b.len()
    } else if i == b.len() {
        false
    } else {
        let ca = a[i];
        let cb = b[i];
        assert(a@.skip(i as int)[0] == a@[i as int]);
        assert(b@.skip(i as int)[0] == b@[i as int]);
        ca < cb
    }
}

/// `x` placed into `s` after every disk whose name does not sort after it.
pub open spec fn insert_by_name(s: Seq<DiskInfo>, x: DiskInfo) -> Seq<DiskInfo>
    decreases s.len(),
{
    if s.len() > 0 && text_less(x.name@, s.last().name@) {
        insert_by_name(s.drop_last(), x).push(s.last())
    } else {
        s.push(x)
    }
}

/// The disks in the order of their names; disks with the same name keep
/// their order.
pub open spec fn sorted_by_name(s: Seq<DiskInfo>) -> Seq<DiskInfo>
    decreases s.len(),
{
    if s.len() == 0 {
        s
    } else {
        insert_by_name(sorted_by_name(s.drop_last()), s.last())
    }
}

/// Where `insert_by_name` places `x` in `s`.
pub open spec fn name_insert_index(s: Seq<DiskInfo>, x: DiskInfo) -> int
    decreases s.len(),
{
    if s.len() > 0 && text_less(x.name@, s.last().name@) {
        name_insert_index(s.drop_last(), x)
    } else {
        s.len() as int
    }
}

/// No disk's name sorts before that of a disk listed earlier.
pub open spec fn is_sorted_by_name(s: Seq<DiskInfo>) -> bool {
    forall|i: int, j: int|
        0 <= i < j < s.len() ==> !text_less(#[trigger] s[j].name@, #[trigger] s[i].name@)
}

proof fn lemma_insert_by_name_split(s: Seq<DiskInfo>, x: DiskInfo)
    ensures
        0 <= name_insert_index(s, x) <= s.len(),
        insert_by_name(s, x) == s.insert(name_insert_index(s, x), x),
        forall|j: int|
            name_insert_index(s, x) <= j < s.len() ==> text_less(x.name@, #[trigger] s[j].name@),
        name_insert_index(s, x) > 0 ==> !text_less(x.name@, s[name_insert_index(s, x) - 1].name@),
    decreases s.len(),
{
    if s.len() > 0 && text_less(x.name@, s.last().name@) {
        let t = s.drop_last();
        lemma_insert_by_name_split(t, x);
        let k = name_insert_index(t, x);
        assert(t.insert(k, x).push(s.last()) =~= s.insert(k, x));
        assert forall|j: int| k <= j < s.len() implies text_less(x.name@, #[trigger] s[j].name@) by {
            if j < s.len() - 1 {
                assert(s[j] == t[j]);
            }
        }
    } else {
        assert(s.push(x) =~= s.insert(s.len() as int, x));
    }
}

/// The disks end up in name order.
pub proof fn lemma_sorted_by_name_is_sorted(s: Seq<DiskInfo>)
    ensures
        is_sorted_by_name(sorted_by_name(s)),
    decreases s.len(),
{
    if s.len() > 0 {
        let t = sorted_by_name(s.drop_last());
        let x = s.last();
        lemma_sorted_by_name_is_sorted(s.drop_last());
        lemma_insert_by_name_split(t, x);
        let k = name_insert_index(t, x);
        let r = insert_by_name(t, x);
        assert forall|i: int, j: int| 0 <= i < j < r.len() implies !text_less(
            #[trigger] r[j].name@,
            #[trigger] r[i].name@,
        ) by {
            if j < k {
                assert(r[i] == t[i] && r[j] == t[j]);
            } else if j == k {
                assert(r[j] == x && r[i] == t[i]);
                if i < k - 1 {
                    lemma_text_less_order(x.name@, t[k - 1].name@, t[i].name@);
                    lemma_text_less_order(t[k - 1].name@, t[i].name@, x.name@);
                    lemma_text_less_order(x.name@, t[i].name@, t[k - 1].name@);
                    lemma_text_less_order(t[i].name@, x.name@, t[k - 1].name@);
                }
            } else if i < k {
                assert(r[i] == t[i] && r[j] == t[j - 1]);
            } else if i == k {
                assert(r[i] == x && r[j] == t[j - 1]);
                lemma_text_less_order(x.name@, t[j - 1].name@, x.name@);
            } else {
                assert(r[i] == t[i - 1] && r[j] == t[j - 1]);
            }
        }
    }
}

/// Sorting keeps exactly the disks it was given.
pub proof fn lemma_sorted_by_name_permutes(s: Seq<DiskInfo>)
    ensures
        sorted_by_name(s).to_multiset() == s.to_multiset(),
    decreases s.len(),
{
    if s.len() > 0 {
        let t = s.drop_last();
        lemma_sorted_by_name_permutes(t);
        lemma_insert_by_name_split(sorted_by_name(t), s.last());
        assert(s =~= t.insert(t.len() as int, s.last()));
    }
}

/// The position at which a disk named `name` enters the sorted list `out`.
fn name_insert_position(out: &Vec<DiskInfo>, x: &DiskInfo, name: &Vec<char>) -> (p: usize)
    requires
        name@ == x.name@,
    ensures
        p <= out@.len(),
        insert_by_name(out@, *x) == out@.insert(p as int, *x),
{
    let mut p = out.len();
    assert(out@.take(p as int) =~= out@);
    loop
        invariant
            p <= out@.len(),
            name@ == x.name@,
            insert_by_name(out@, *x) == insert_by_name(out@.take(p as int), *x) + out@.skip(
                p as int,
            ),
        ensures
            p <= out@.len(),
            insert_by_name(out@, *x) == insert_by_name(out@.take(p as int), *x) + out@.skip(
                p as int,
            ),
            p == 0 || !text_less(x.name@, out@[p - 1].name@),
        decreases p,
    {
        if p == 0 {
            break;
        }
        let other = chars_of(out[p - 1].name.as_str());
        if !text_less_exec(name, &other) {
            break;
        }
        let ghost t = out@.take(p as int);
        assert(t.drop_last() =~= out@.take(p - 1));
        assert(t.last() == out@[p - 1]);
        assert(insert_by_name(out@.take(p - 1), *x).push(out@[p - 1]) + out@.skip(p as int)
            =~= insert_by_name(out@.take(p - 1), *x) + out@.skip(p - 1));
        p = p - 1;
    }
    assert(insert_by_name(out@.take(p as int), *x) == out@.take(p as int).push(*x));
    assert(out@.take(p as int).push(*x) + out@.skip(p as int) =~= out@.insert(p as int, *x));
    p
}

/// The disks in the order of their names; disks with the same name keep
/// their order.
pub fn sort_disks_by_name(disks: Vec<DiskInfo>) -> (r: Vec<DiskInfo>)
    ensures
        r@ == sorted_by_name(disks@),
{
    let ghost orig = disks@;
    let mut rest = disks;
    let mut out: Vec<DiskInfo> = Vec::new();
    let n = rest.len();
    let mut i: usize = 0;
    assert(orig.skip(0) =~= orig);
    assert(orig.take(0) =~= Seq::<DiskInfo>::empty());
    while i < n
        invariant
            n == orig.len(),
            i <= n,
            rest@ == orig.skip(i as int),
            out@ == sorted_by_name(orig.take(i as int)),
        decreases n - i,
    {
        let x = rest.remove(0);
        assert(x == orig[i as int]);
        assert(rest@ =~= orig.skip(i + 1));
        let name = chars_of(x.name.as_str());
        let p = name_insert_position(&out, &x, &name);
        out.insert(p, x);
        assert(orig.take(i + 1).drop_last() =~= orig.take(i as int));
        i = i + 1;
    }
    assert(orig.take(n as int) =~= orig);
    out
}

} // verus!
