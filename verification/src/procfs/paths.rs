//! Which pseudo-files may be read.
use crate::order::{before, lemma_asymmetric, lemma_transitive, rank, Rank};
use crate::text::{chars_eq, chars_of, has_prefix, join2, starts_with};
use vstd::multiset::Multiset;
use vstd::prelude::*;
use vstd::string::*;

verus! {

/// The allowed roots.
pub open spec fn roots() -> Seq<Seq<char>> {
    seq![
        "/proc/net"@,
        "/proc/softirqs"@,
        "/proc/interrupts"@,
        "/proc/irq"@,
        "/sys/class/net"@,
        "/sys/bus/pci/devices"@,
    ]
}

/// The path is the root itself or lies beneath it, at a component boundary.
pub open spec fn under(path: Seq<char>, root: Seq<char>) -> bool {
    path == root || (has_prefix(path, root) && path.len() > root.len() && path[root.len() as int]
        == '/')
}

/// Some component of the path is `..`.
pub open spec fn steps_up(path: Seq<char>) -> bool {
    exists|i: int| step_at(path, i)
}

/// A component that is `..` starts at `i`: two dots between slashes or the ends
/// of the path.
pub open spec fn step_at(path: Seq<char>, i: int) -> bool {
    &&& 0 <= i && i + 2 <= path.len()
    &&& path[i] == '.' && path[i + 1] == '.'
    &&& i == 0 || path[i - 1] == '/'
    &&& i + 2 == path.len() || path[i + 2] == '/'
}

/// The path may be read: none of its components is `..` and it lies under a root.
pub open spec fn allowed(path: Seq<char>) -> bool {
    !steps_up(path) && exists|k: int| 0 <= k < roots().len() && under(path, #[trigger] roots()[k])
}

fn has_step(path: &[char]) -> (r: bool)
    ensures
        r == steps_up(path@),
{
    let mut i: usize = 0;
    while path.len() - i >= 2
        invariant
            i <= path.len(),
            forall|j: int| 0 <= j < i ==> !step_at(path@, j),
        decreases path.len() - i,
    {
        if path[i] == '.' && path[i + 1] == '.' && (i == 0 || path[i - 1] == '/') && (path.len() - i
            == 2 || path[i + 2] == '/') {
            proof {
                assert(step_at(path@, i as int));
            }
            return true;
        }
        i += 1;
    }
    proof {
        assert forall|j: int| !step_at(path@, j) by {
            if step_at(path@, j) {
                assert(j < i);
            }
        }
    }
    false
}

fn lies_under(path: &[char], root: &str) -> (r: bool)
    ensures
        r == under(path@, root@),
{
    if chars_eq(path, root) {
        return true;
    }
    let lit = chars_of(root);
    starts_with(path, root) && path.len() > lit.len() && path[lit.len()] == '/'
}

/// Whether a path may be read.
pub fn path_allowed(path: &str) -> (r: bool)
    ensures
        r == allowed(path@),
{
    let chars = chars_of(path);
    let p = chars.as_slice();
    let r = !has_step(p) && (lies_under(p, "/proc/net") || lies_under(p, "/proc/softirqs")
        || lies_under(p, "/proc/interrupts") || lies_under(p, "/proc/irq") || lies_under(
        p,
        "/sys/class/net",
    ) || lies_under(p, "/sys/bus/pci/devices"));
    proof {
        let rs = roots();
        assert(rs[0] == "/proc/net"@);
        assert(rs[1] == "/proc/softirqs"@);
        assert(rs[2] == "/proc/interrupts"@);
        assert(rs[3] == "/proc/irq"@);
        assert(rs[4] == "/sys/class/net"@);
        assert(rs[5] == "/sys/bus/pci/devices"@);
    }
    r
}

/// The directory of the network devices.
pub const NET_CLASS: &'static str = "/sys/class/net";

/// `a`, a slash, and `b`.
pub open spec fn joined(a: Seq<char>, b: Seq<char>) -> Seq<char> {
    a + "/"@ + b
}

/// Joins two parts of a path.
pub fn join_path(a: &str, b: &str) -> (r: String)
    ensures
        r@ == joined(a@, b@),
{
    let mut r = join2(a, "/");
    r.append(b);
    r
}

/// The path of an attribute of a device's hardware.
pub open spec fn device_attr(dev: Seq<char>, attr: Seq<char>) -> Seq<char> {
    "/sys/class/net/"@ + dev + "/device/"@ + attr
}

/// The path of an attribute of a device's hardware.
pub fn dev_path(dev: &str, attr: &str) -> (r: String)
    ensures
        r@ == device_attr(dev@, attr@),
{
    let mut r = join2("/sys/class/net/", dev);
    r.append("/device/");
    r.append(attr);
    r
}

/// The texts of names.
pub open spec fn name_views(names: Seq<String>) -> Seq<Seq<char>> {
    names.map_values(|n: String| n@)
}

/// No text sorts before one that stands earlier.
pub open spec fn in_order(texts: Seq<Seq<char>>) -> bool {
    forall|i: int, j: int|
        0 <= i < j < texts.len() ==> !before(#[trigger] texts[j], #[trigger] texts[i])
}

/// Sorts names.
pub fn sorted_names(names: Vec<String>) -> (r: Vec<String>)
    ensures
        in_order(name_views(r@)),
        name_views(r@).to_multiset() == name_views(names@).to_multiset(),
{
    let mut rest = names;
    let mut r: Vec<String> = Vec::new();
    let ghost all = name_views(names@).to_multiset();
    proof {
        broadcast use vstd::seq_lib::group_to_multiset_ensures;

        assert(name_views(r@) =~= seq![]);
        assert(Seq::<Seq<char>>::empty().to_multiset() =~= Multiset::empty());
        assert(name_views(r@).to_multiset().add(name_views(rest@).to_multiset()) =~= all);
    }
    while rest.len() > 0
        invariant
            in_order(name_views(r@)),
            name_views(r@).to_multiset().add(name_views(rest@).to_multiset()) == all,
        decreases rest.len(),
    {
        let ghost left = name_views(rest@);
        let name = rest.remove(rest.len() - 1);
        let mut i: usize = 0;
        while i < r.len() && !sorts_before(name.as_str(), r[i].as_str())
            invariant
                i <= r.len(),
                forall|j: int| 0 <= j < i ==> !before(name@, #[trigger] name_views(r@)[j]),
            decreases r.len() - i,
        {
            i += 1;
        }
        let ghost done = name_views(r@);
        r.insert(i, name);
        proof {
            broadcast use vstd::seq_lib::group_to_multiset_ensures;

            lemma_inserted(done, i as int, name@);
            assert(name_views(r@) =~= done.insert(i as int, name@));
            assert(name_views(rest@) =~= left.remove(left.len() - 1));
            assert(name_views(r@).to_multiset() =~= done.to_multiset().insert(name@));
            assert(name_views(rest@).to_multiset() =~= left.to_multiset().remove(name@));
            assert(left.contains(name@)) by {
                assert(left[left.len() - 1] == name@);
            }
            assert(left.to_multiset().count(name@) > 0);
            assert(name_views(r@).to_multiset().add(name_views(rest@).to_multiset()) =~= all);
        }
    }
    proof {
        broadcast use vstd::seq_lib::group_to_multiset_ensures;

        assert(name_views(rest@) =~= seq![]);
        assert(Seq::<Seq<char>>::empty().to_multiset() =~= Multiset::empty());
        assert(name_views(r@).to_multiset() =~= all);
    }
    r
}

fn sorts_before(a: &str, b: &str) -> (r: bool)
    ensures
        r == before(a@, b@),
{
    match rank(a, b) {
        Rank::Before => true,
        _ => false,
    }
}

proof fn lemma_inserted(texts: Seq<Seq<char>>, i: int, name: Seq<char>)
    requires
        in_order(texts),
        0 <= i <= texts.len(),
        forall|j: int| 0 <= j < i ==> !before(name, #[trigger] texts[j]),
        i < texts.len() ==> before(name, texts[i]),
    ensures
        in_order(texts.insert(i, name)),
{
    let q = texts.insert(i, name);
    assert forall|a: int, b: int| 0 <= a < b < q.len() implies !before(
        #[trigger] q[b],
        #[trigger] q[a],
    ) by {
        if b < i {
            assert(q[a] == texts[a] && q[b] == texts[b]);
        } else if b == i {
            assert(q[a] == texts[a]);
        } else {
            assert(q[b] == texts[b - 1]);
            if a < i {
                assert(q[a] == texts[a]);
            } else if a > i {
                assert(q[a] == texts[a - 1]);
            } else {
                lemma_asymmetric(name, texts[i]);
                if before(q[b], name) {
                    lemma_transitive(q[b], name, texts[i]);
                    assert(!before(texts[b - 1], texts[i]) || b - 1 == i);
                }
            }
        }
    }
}

// ---------------------------------------------------------------------------
// Laws
// ---------------------------------------------------------------------------

/// A path that steps up in the tree is never read, wherever the component `..`
/// stands.
pub proof fn law_no_step_up(head: Seq<char>, tail: Seq<char>)
    requires
        head.len() == 0 || head.last() == '/',
        tail.len() == 0 || tail[0] == '/',
    ensures
        !allowed(head + seq!['.', '.'] + tail),
{
    let path = head + seq!['.', '.'] + tail;
    assert(step_at(path, head.len() as int));
}

/// Dots inside a name are no step up: a name without slashes beneath a root may
/// be read unless it is `..` itself.
pub proof fn law_dotted_names_allowed(k: int, name: Seq<char>)
    requires
        0 <= k < roots().len(),
        !name.contains('/'),
        name != seq!['.', '.'],
    ensures
        allowed(joined(roots()[k], name)),
{
    reveal_strlit("/");
    lemma_roots_plain(k);
    let root = roots()[k];
    let path = joined(root, name);
    let n = root.len() as int;
    assert(path.take(n) =~= root);
    assert(under(path, roots()[k]));
    assert forall|i: int| !step_at(path, i) by {
        if step_at(path, i) {
            if i < n {
                assert(root[i] == path[i]);
                assert(root[i] != '.');
            } else {
                assert(i > n);
                if i > n + 1 {
                    assert(name[i - n - 2] == path[i - 1]);
                    assert(name.contains('/'));
                }
                if i + 2 < path.len() {
                    assert(name[i - n + 1] == path[i + 2]);
                    assert(name.contains('/'));
                }
                assert(name[0] == path[n + 1]);
                assert(name[1] == path[n + 2]);
                assert(name =~= seq!['.', '.']);
            }
        }
    }
}

/// No root holds a dot.
proof fn lemma_roots_plain(k: int)
    requires
        0 <= k < roots().len(),
    ensures
        forall|i: int| 0 <= i < roots()[k].len() ==> #[trigger] roots()[k][i] != '.',
{
    reveal_strlit("/proc/net");
    reveal_strlit("/proc/softirqs");
    reveal_strlit("/proc/interrupts");
    reveal_strlit("/proc/irq");
    reveal_strlit("/sys/class/net");
    reveal_strlit("/sys/bus/pci/devices");
}

/// A name that only starts like a root is not under it.
pub proof fn law_component_boundary(root: Seq<char>, c: char, tail: Seq<char>)
    requires
        c != '/',
    ensures
        !under(root + seq![c] + tail, root),
{
    let path = root + seq![c] + tail;
    assert(path[root.len() as int] == c);
    assert(path.len() != root.len());
}

/// Every attribute of every device may be read, as long as no component of
/// either name is `..`.
pub proof fn law_device_attrs_allowed(dev: Seq<char>, attr: Seq<char>)
    requires
        !steps_up(dev),
        !steps_up(attr),
    ensures
        allowed(device_attr(dev, attr)),
{
    reveal_strlit("/sys/class/net/");
    reveal_strlit("/sys/class/net");
    reveal_strlit("/device/");
    let path = device_attr(dev, attr);
    let root = "/sys/class/net"@;
    let d = 15 + dev.len() as int;
    assert(path.take(14) =~= root);
    assert(path[14] == '/');
    assert(roots()[4] == root);
    assert(under(path, roots()[4]));
    assert forall|i: int| !step_at(path, i) by {
        if step_at(path, i) {
            if i < 15 {
                assert(path[i] == "/sys/class/net/"@[i]);
            } else if i + 1 < d {
                assert(dev[i - 15] == path[i]);
                assert(dev[i - 14] == path[i + 1]);
                if i > 15 {
                    assert(dev[i - 16] == path[i - 1]);
                }
                if i + 2 < d {
                    assert(dev[i - 13] == path[i + 2]);
                }
                assert(step_at(dev, i - 15));
            } else if i + 1 == d {
                assert(path[i + 1] == "/device/"@[0]);
            } else if i < d + 8 {
                assert(path[i] == "/device/"@[i - d]);
            } else {
                assert(attr[i - d - 8] == path[i]);
                assert(attr[i - d - 7] == path[i + 1]);
                if i > d + 8 {
                    assert(attr[i - d - 9] == path[i - 1]);
                }
                if i + 2 < path.len() {
                    assert(attr[i - d - 6] == path[i + 2]);
                }
                assert(step_at(attr, i - d - 8));
            }
        }
    }
}

/// A path without a step up is allowed exactly when it is one of the roots or
/// lies below one.
pub proof fn law_roots_exact(path: Seq<char>)
    requires
        !steps_up(path),
    ensures
        allowed(path) <==> {
            ||| under(path, "/proc/net"@)
            ||| under(path, "/proc/softirqs"@)
            ||| under(path, "/proc/interrupts"@)
            ||| under(path, "/proc/irq"@)
            ||| under(path, "/sys/class/net"@)
            ||| under(path, "/sys/bus/pci/devices"@)
        },
{
    assert(roots()[0] == "/proc/net"@);
    assert(roots()[1] == "/proc/softirqs"@);
    assert(roots()[2] == "/proc/interrupts"@);
    assert(roots()[3] == "/proc/irq"@);
    assert(roots()[4] == "/sys/class/net"@);
    assert(roots()[5] == "/sys/bus/pci/devices"@);
}

/// A path lies below a root when it continues it with a slash.
pub proof fn law_below_root(root: Seq<char>, tail: Seq<char>)
    ensures
        under(root, root),
        under(root + seq!['/'] + tail, root),
        !has_prefix(tail, root) ==> !under(tail, root),
{
    let path = root + seq!['/'] + tail;
    assert(path.take(root.len() as int) =~= root);
    assert(root.take(root.len() as int) =~= root);
}

/// Paths are joined by one slash, and an attribute lies in the directory of its
/// device.
pub proof fn law_paths_joined(dev: Seq<char>, attr: Seq<char>)
    ensures
        joined(dev, attr) == dev + seq!['/'] + attr,
        device_attr(dev, attr) == joined(
            joined(joined("/sys/class/net"@, dev), "device"@),
            attr,
        ),
{
    reveal_strlit("/");
    reveal_strlit("device");
    reveal_strlit("/device/");
    reveal_strlit("/sys/class/net");
    reveal_strlit("/sys/class/net/");
    assert("/"@ =~= seq!['/']);
    assert("/sys/class/net/"@ =~= "/sys/class/net"@ + "/"@);
    assert("/device/"@ =~= "/"@ + "device"@ + "/"@);
    assert(device_attr(dev, attr) =~= joined(
        joined(joined("/sys/class/net"@, dev), "device"@),
        attr,
    ));
}

} // verus!
