use vstd::prelude::*;
use crate::text::{starts_with, has_prefix, copy_range, opt_bytes};

verus! {

/// The slash that separates path components.
pub const SLASH: u8 = 47;

/// The path of `path` relative to `root`, if `path` lies under `root`; the
/// root itself is the empty path.
pub open spec fn relative_to(root: Seq<u8>, path: Seq<u8>) -> Option<Seq<u8>> {
    if path == root {
        Some(seq![])
    } else if root.len() == 0 {
        Some(path)
    } else if starts_with(path, root) && root.last() == SLASH {
        Some(path.skip(root.len() as int))
    } else if starts_with(path, root) && path.len() > root.len() && path[root.len() as int]
        == SLASH {
        Some(path.skip(root.len() as int + 1))
    } else {
        None
    }
}

/// The percentage of the export done once `done` of `total` entries are
/// written, rounded down.
pub open spec fn percent_done(done: nat, total: nat) -> nat
    recommends
        total > 0,
{
    done * 100 / total
}

/// An entry found by the walk of the source tree.
#[derive(Debug, PartialEq, Eq)]
pub struct WalkedEntry {
    pub path: Vec<u8>,
    pub is_file: bool,
}

/// What the archive receives for one walked entry.
#[derive(Debug, PartialEq, Eq)]
pub enum EntryAction {
    /// A file, stored compressed under this relative path.
    File(Vec<u8>),
    /// A directory entry under this relative path.
    Directory(Vec<u8>),
    /// The root directory itself, which has no entry of its own.
    Skip,
}

/// `a` is the action for an entry at relative path `rel`.
pub open spec fn action_for(a: EntryAction, rel: Seq<u8>, is_file: bool) -> bool {
    match a {
        EntryAction::File(n) => is_file && n@ == rel,
        EntryAction::Directory(n) => !is_file && rel.len() > 0 && n@ == rel,
        EntryAction::Skip => !is_file && rel.len() == 0,
    }
}

/// One step of an export: the entry to write, then the percentage to publish.
#[derive(Debug, PartialEq, Eq)]
pub struct ArchiveStep {
    pub action: EntryAction,
    pub percent: u32,
}

/// The relative path of `path` under `root`, as `relative_to` gives it.
pub fn relative_path(root: &[u8], path: &[u8]) -> (r: Option<Vec<u8>>)
    ensures
        opt_bytes(r) == relative_to(root@, path@),
{
    let n = root.len();
    let under = has_prefix(path, root);
    if under && path.len() == n {
        assert(path@ =~= root@) by {
            assert(path@.subrange(0, n as int) =~= path@);
        }
        let r: Vec<u8> = Vec::new();
        assert(r@ =~= Seq::<u8>::empty());
        return Some(r);
    }
    assert(path@ != root@) by {
        if path@ == root@ {
            assert(root@.subrange(0, n as int) =~= root@);
        }
    }
    if n == 0 {
        let r = copy_range(path, 0, path.len());
        assert(r@ =~= path@);
        return Some(r);
    }
    if under && root[n - 1] == SLASH {
        let r = copy_range(path, n, path.len());
        assert(r@ =~= path@.skip(n as int));
        return Some(r);
    }
    if under && path.len() > n && path[n] == SLASH {
        let r = copy_range(path, n + 1, path.len());
        assert(r@ =~= path@.skip(n as int + 1));
        return Some(r);
    }
    None
}

/// The percentage to publish once `done` of `total` entries are written.
pub fn percentage(done: usize, total: usize) -> (r: u32)
    requires
        0 < total,
        done <= total,
    ensures
        r == percent_done(done as nat, total as nat),
        r <= 100,
{
    proof {
        lemma_percent_bounds(done as nat, total as nat);
    }
    let p: u128 = (done as u128) * 100 / (total as u128);
    p as u32
}

proof fn lemma_percent_bounds(done: nat, total: nat)
    requires
        0 < total,
        done <= total,
    ensures
        percent_done(done, total) <= 100,
        done < total ==> percent_done(done, total) < 100,
        done == total ==> percent_done(done, total) == 100,
{
    assert(done * 100 <= total * 100) by (nonlinear_arith)
        requires
            done <= total,
    ;
    vstd::arithmetic::div_mod::lemma_div_is_ordered((done * 100) as int, (total * 100) as int, total as int);
    vstd::arithmetic::div_mod::lemma_div_multiples_vanish(100, total as int);
    assert(total * 100 == 100 * total) by (nonlinear_arith);
    assert(done < total ==> done * 100 < 100 * total) by (nonlinear_arith);
    if done < total {
        let x = (done * 100) as int;
        let t = total as int;
        vstd::arithmetic::div_mod::lemma_fundamental_div_mod(x, t);
        let q = x / t;
        vstd::arithmetic::div_mod::lemma_mod_bound(x, t);
        assert(q < 100) by (nonlinear_arith)
            requires
                x == t * q + x % t,
                0 <= x % t < t,
                x < 100 * t,
                t > 0,
        ;
    }
}

/// The export's percentages never go down as entries are written, and reach
/// 100 exactly when the last entry is written.
pub proof fn lemma_progress_monotone(i: nat, j: nat, total: nat)
    requires
        0 < i <= j <= total,
    ensures
        percent_done(i, total) <= percent_done(j, total),
        percent_done(i, total) == 100 <==> i == total,
{
    lemma_percent_bounds(i, total);
    assert(i * 100 <= j * 100) by (nonlinear_arith)
        requires
            i <= j,
    ;
    vstd::arithmetic::div_mod::lemma_div_is_ordered((i * 100) as int, (j * 100) as int, total as int);
}

/// The action for one walked entry, or `None` if it does not lie under `root`.
pub fn entry_action(root: &[u8], entry: &WalkedEntry) -> (r: Option<EntryAction>)
    ensures
        r is None <==> relative_to(root@, entry.path@) is None,
        r matches Some(a) ==> action_for(a, relative_to(root@, entry.path@)->Some_0, entry.is_file),
{
    match relative_path(root, entry.path.as_slice()) {
        None => None,
        Some(rel) => {
            if entry.is_file {
                Some(EntryAction::File(rel))
            } else if rel.len() == 0 {
                Some(EntryAction::Skip)
            } else {
                Some(EntryAction::Directory(rel))
            }
        },
    }
}

/// `steps` is the export plan of `entries` under `root`: one step per entry,
/// in walk order, each with its action and the percentage done after it.
pub open spec fn plans(root: Seq<u8>, entries: Seq<WalkedEntry>, steps: Seq<ArchiveStep>) -> bool {
    &&& steps.len() == entries.len()
    &&& forall|i: int|
        #![trigger steps[i]]
        0 <= i < steps.len() ==> {
            &&& relative_to(root, entries[i].path@) is Some
            &&& action_for(
                steps[i].action,
                relative_to(root, entries[i].path@)->Some_0,
                entries[i].is_file,
            )
            &&& steps[i].percent == percent_done((i + 1) as nat, entries.len())
        }
}

/// Plans the export of a walked tree: what to write for each entry and the
/// percentage to publish after it. `None` if an entry lies outside `root`.
/// The percentages never go down and reach 100 only at the last entry; an
/// empty walk has no step, so no percentage is published.
pub fn plan_export(root: &[u8], entries: &Vec<WalkedEntry>) -> (r: Option<Vec<ArchiveStep>>)
    ensures
        r is None <==> exists|i: int|
            0 <= i < entries@.len() && relative_to(root@, #[trigger] entries@[i].path@) is None,
        r matches Some(steps) ==> plans(root@, entries@, steps@),
        r matches Some(steps) ==> forall|i: int, j: int|
            0 <= i <= j < steps@.len() ==> #[trigger] steps@[i].percent <= #[trigger] steps@[j].percent,
        r matches Some(steps) ==> forall|i: int|
            0 <= i < steps@.len() ==> (#[trigger] steps@[i].percent == 100 <==> i == steps@.len() - 1),
{
    let total = entries.len();
    let mut steps: Vec<ArchiveStep> = Vec::new();
    let mut k: usize = 0;
    while k < total
        invariant
            total == entries@.len(),
            k <= total,
            steps@.len() == k,
            forall|i: int|
                0 <= i < k ==> relative_to(root@, #[trigger] entries@[i].path@) is Some,
            forall|i: int|
                #![trigger steps@[i]]
                0 <= i < k ==> {
                    &&& relative_to(root@, entries@[i].path@) is Some
                    &&& action_for(
                        steps@[i].action,
                        relative_to(root@, entries@[i].path@)->Some_0,
                        entries@[i].is_file,
                    )
                    &&& steps@[i].percent == percent_done((i + 1) as nat, total as nat)
                },
        decreases total - k,
    {
        match entry_action(root, &entries[k]) {
            None => {
                assert(relative_to(root@, entries@[k as int].path@) is None);
                return None;
            },
            Some(action) => {
                let percent = percentage(k + 1, total);
                steps.push(ArchiveStep { action, percent });
            },
        }
        k = k + 1;
    }
    proof {
        assert forall|i: int, j: int|
            0 <= i <= j < steps@.len() implies #[trigger] steps@[i].percent
            <= #[trigger] steps@[j].percent by {
            lemma_progress_monotone((i + 1) as nat, (j + 1) as nat, total as nat);
        }
        assert forall|i: int|
            0 <= i < steps@.len() implies (#[trigger] steps@[i].percent == 100 <==> i == steps@.len() - 1) by {
            lemma_progress_monotone((i + 1) as nat, (i + 1) as nat, total as nat);
        }
    }
    Some(steps)
}

} // verus!
