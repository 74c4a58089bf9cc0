//! Decisions of the privileged helper mode: which commands run a scan,
//! which are refused, and which of the temporary outputs the helper made
//! it may unlink.
//!
//! The helper reads one command per line, does the work a decision asks
//! for (a scan into a fresh temporary file, unlinking files, replying) and
//! reports back what came of it. It only ever unlinks paths it created
//! itself and has not unlinked yet.

use vstd::prelude::*;

use crate::namespace::strings_view;
use crate::text::owned;

verus! {

/// A command of the helper protocol.
#[derive(Debug)]
pub enum HelperCommand {
    /// Scan the directory at `path`.
    Scan { path: String },
    /// Unlink each of `paths` that the helper created.
    Release { paths: Vec<String> },
    /// Unlink every output still held, then stop.
    Quit,
    /// A command the protocol does not know.
    Unknown,
}

/// What the helper is to do next.
#[derive(Debug)]
pub enum HelperAction {
    /// Reply with an error message and wait for the next command.
    ReplyErr(String),
    /// Scan `path`; the output path, once made, is reported through
    /// [`HelperState::scan_finished`].
    RunScan(String),
    /// Unlink `unlink` (all outputs of this helper), report `refused` as
    /// not owned, then acknowledge.
    Release { unlink: Vec<String>, refused: Vec<String> },
    /// Unlink `unlink`, say goodbye and stop.
    Quit { unlink: Vec<String> },
}

/// Whether `a` and `b` name the same path: `std::path::Path` equality,
/// which compares the paths' components.
pub uninterp spec fn path_eq(a: Seq<char>, b: Seq<char>) -> bool;

/// `std::path::Path`'s `==` on `a` and `b`. Paths with the same text have
/// the same components and so are equal; of other pairs nothing is
/// claimed here (for example `a//b` and `a/b` are equal paths).
#[verifier::external_body]
fn same_path(a: &str, b: &str) -> (r: bool)
    ensures
        r == path_eq(a@, b@),
        a@ == b@ ==> r,
{
    std::path::Path::new(a) == std::path::Path::new(b)
}

/// Some path of `owned` is the same path as `p`.
pub open spec fn holds_path(owned: Seq<Seq<char>>, p: Seq<char>) -> bool
    decreases owned.len(),
{
    if owned.len() == 0 {
        false
    } else {
        holds_path(owned.drop_last(), p) || path_eq(owned.last(), p)
    }
}

/// `owned` without the paths that are the same path as `p`, in order.
pub open spec fn without_path(owned: Seq<Seq<char>>, p: Seq<char>) -> Seq<Seq<char>>
    decreases owned.len(),
{
    if owned.len() == 0 {
        owned
    } else {
        let rest = without_path(owned.drop_last(), p);
        if path_eq(owned.last(), p) {
            rest
        } else {
            rest.push(owned.last())
        }
    }
}

/// The outputs still held, the paths unlinked and the paths refused after
/// releasing `paths` in order from `owned`: a path is unlinked when some
/// held output is the same path, and every such output is then dropped.
pub open spec fn release_all(owned: Seq<Seq<char>>, paths: Seq<Seq<char>>) -> (
    Seq<Seq<char>>,
    Seq<Seq<char>>,
    Seq<Seq<char>>,
)
    decreases paths.len(),
{
    if paths.len() == 0 {
        (owned, Seq::empty(), Seq::empty())
    } else {
        let (o, u, r) = release_all(owned, paths.drop_last());
        let p = paths.last();
        if holds_path(o, p) {
            (without_path(o, p), u.push(p), r)
        } else {
            (o, u, r.push(p))
        }
    }
}

proof fn lemma_without_keeps_held(o: Seq<Seq<char>>, p: Seq<char>, q: Seq<char>)
    ensures
        holds_path(without_path(o, p), q) ==> holds_path(o, q),
    decreases o.len(),
{
    if o.len() > 0 {
        lemma_without_keeps_held(o.drop_last(), p, q);
        let rest = without_path(o.drop_last(), p);
        if !path_eq(o.last(), p) {
            assert(rest.push(o.last()).drop_last() =~= rest);
        }
    }
}

/// A release only ever unlinks paths the helper held, and afterwards
/// holds nothing it did not hold before.
pub proof fn lemma_release_unlinks_only_held(owned: Seq<Seq<char>>, paths: Seq<Seq<char>>)
    ensures
        forall|i: int|
            0 <= i < release_all(owned, paths).1.len() ==> holds_path(owned, #[trigger] release_all(owned, paths).1[i]),
        forall|q: Seq<char>| #[trigger] holds_path(release_all(owned, paths).0, q) ==> holds_path(owned, q),
    decreases paths.len(),
{
    if paths.len() > 0 {
        lemma_release_unlinks_only_held(owned, paths.drop_last());
        let (o, u, r) = release_all(owned, paths.drop_last());
        let p = paths.last();
        if holds_path(o, p) {
            assert forall|q: Seq<char>| #[trigger] holds_path(without_path(o, p), q) implies holds_path(owned, q) by {
                lemma_without_keeps_held(o, p, q);
            }
            assert forall|i: int| 0 <= i < u.push(p).len() implies holds_path(owned, #[trigger] u.push(p)[i]) by {
                if i < u.len() {
                    assert(u.push(p)[i] == u[i]);
                }
            }
        }
    }
}

/// `path` holds a NUL character.
pub open spec fn has_nul(path: Seq<char>) -> bool {
    path.contains('\0')
}

pub open spec fn nul_refusal() -> Seq<char> {
    "path contains a NUL byte"@
}

pub open spec fn unknown_refusal() -> Seq<char> {
    "unknown command"@
}

/// The outputs the helper created and has not unlinked.
pub struct HelperState {
    pub owned: Vec<String>,
}

fn holds(held: &Vec<String>, p: &str) -> (r: bool)
    ensures
        r == holds_path(strings_view(held@), p@),
{
    let mut i: usize = 0;
    let mut found = false;
    while i < held.len()
        invariant
            i <= held@.len(),
            found == holds_path(strings_view(held@.subrange(0, i as int)), p@),
        decreases held@.len() - i,
    {
        let same = same_path(held[i].as_str(), p);
        proof {
            assert(strings_view(held@.subrange(0, i + 1)).drop_last() =~= strings_view(held@.subrange(0, i as int)));
        }
        found = found || same;
        i = i + 1;
    }
    assert(held@.subrange(0, held@.len() as int) =~= held@);
    found
}

fn drop_path(held: &Vec<String>, p: &str) -> (r: Vec<String>)
    ensures
        strings_view(r@) == without_path(strings_view(held@), p@),
{
    let mut kept: Vec<String> = Vec::new();
    let mut i: usize = 0;
    while i < held.len()
        invariant
            i <= held@.len(),
            strings_view(kept@) == without_path(strings_view(held@.subrange(0, i as int)), p@),
        decreases held@.len() - i,
    {
        let same = same_path(held[i].as_str(), p);
        proof {
            assert(strings_view(held@.subrange(0, i + 1)).drop_last() =~= strings_view(held@.subrange(0, i as int)));
        }
        if !same {
            let ghost before = strings_view(kept@);
            kept.push(owned(held[i].as_str()));
            assert(strings_view(kept@) =~= before.push(held@[i as int]@));
        }
        i = i + 1;
    }
    assert(held@.subrange(0, held@.len() as int) =~= held@);
    kept
}

fn contains_nul(path: &str) -> (r: bool)
    ensures
        r == has_nul(path@),
{
    let n = path.unicode_len();
    let mut i: usize = 0;
    while i < n
        invariant
            n == path@.len(),
            i <= n,
            forall|k: int| 0 <= k < i ==> path@[k] != '\0',
        decreases n - i,
    {
        if path.get_char(i) == '\0' {
            assert(path@[i as int] == '\0');
            return true;
        }
        i = i + 1;
    }
    false
}

fn copy_strings(v: &Vec<String>) -> (r: Vec<String>)
    ensures
        strings_view(r@) == strings_view(v@),
{
    let mut out: Vec<String> = Vec::new();
    let mut i: usize = 0;
    while i < v.len()
        invariant
            i <= v@.len(),
            strings_view(out@) == strings_view(v@.subrange(0, i as int)),
        decreases v@.len() - i,
    {
        let ghost before = strings_view(out@);
        out.push(owned(v[i].as_str()));
        assert(strings_view(out@) =~= before.push(v@[i as int]@));
        assert(strings_view(v@.subrange(0, i + 1)) =~= strings_view(v@.subrange(0, i as int)).push(v@[i as int]@));
        i = i + 1;
    }
    assert(v@.subrange(0, v@.len() as int) =~= v@);
    out
}

impl HelperState {
    /// A helper that holds no outputs yet.
    pub fn new() -> (s: Self)
        ensures
            s.owned@.len() == 0,
    {
        HelperState { owned: Vec::new() }
    }

    /// Decides what to do with `cmd`. A scan of a path holding a NUL and
    /// an unknown command are refused; a release unlinks only outputs
    /// this helper created; quitting unlinks every output still held.
    pub fn on_command(&mut self, cmd: HelperCommand) -> (a: HelperAction)
        ensures
            match cmd {
                HelperCommand::Scan { path } => if has_nul(path@) {
                    a matches HelperAction::ReplyErr(m) && m@ == nul_refusal()
                        && final(self).owned@ == old(self).owned@
                } else {
                    a matches HelperAction::RunScan(p) && p@ == path@ && final(self).owned@ == old(self).owned@
                },
                HelperCommand::Release { paths } => {
                    let (o, u, r) = release_all(strings_view(old(self).owned@), strings_view(paths@));
                    a matches HelperAction::Release { unlink, refused } && strings_view(unlink@) == u
                        && strings_view(refused@) == r && strings_view(final(self).owned@) == o
                },
                HelperCommand::Quit => a matches HelperAction::Quit { unlink } && strings_view(unlink@)
                    == strings_view(old(self).owned@) && final(self).owned@.len() == 0,
                HelperCommand::Unknown => a matches HelperAction::ReplyErr(m) && m@ == unknown_refusal()
                    && final(self).owned@ == old(self).owned@,
            },
    {
        match cmd {
            HelperCommand::Scan { path } => {
                if contains_nul(path.as_str()) {
                    let m = owned("path contains a NUL byte");
                    proof {
                        reveal_strlit("path contains a NUL byte");
                    }
                    HelperAction::ReplyErr(m)
                } else {
                    HelperAction::RunScan(path)
                }
            },
            HelperCommand::Release { paths } => {
                let ghost ps = strings_view(paths@);
                let ghost o0 = strings_view(self.owned@);
                let mut unlink: Vec<String> = Vec::new();
                let mut refused: Vec<String> = Vec::new();
                let mut i: usize = 0;
                while i < paths.len()
                    invariant
                        i <= paths@.len(),
                        ps == strings_view(paths@),
                        ({
                            let (o, u, r) = release_all(o0, ps.subrange(0, i as int));
                            strings_view(self.owned@) == o && strings_view(unlink@) == u && strings_view(refused@) == r
                        }),
                    decreases paths@.len() - i,
                {
                    let p = paths[i].as_str();
                    proof {
                        assert(ps.subrange(0, i + 1).drop_last() =~= ps.subrange(0, i as int));
                        assert(ps.subrange(0, i + 1).last() == p@);
                    }
                    if holds(&self.owned, p) {
                        self.owned = drop_path(&self.owned, p);
                        let ghost before = strings_view(unlink@);
                        unlink.push(owned(p));
                        assert(strings_view(unlink@) =~= before.push(p@));
                    } else {
                        let ghost before = strings_view(refused@);
                        refused.push(owned(p));
                        assert(strings_view(refused@) =~= before.push(p@));
                    }
                    i = i + 1;
                }
                assert(ps.subrange(0, paths@.len() as int) =~= ps);
                HelperAction::Release { unlink, refused }
            },
            HelperCommand::Quit => {
                let unlink = copy_strings(&self.owned);
                self.owned = Vec::new();
                HelperAction::Quit { unlink }
            },
            HelperCommand::Unknown => {
                let m = owned("unknown command");
                proof {
                    reveal_strlit("unknown command");
                }
                HelperAction::ReplyErr(m)
            },
        }
    }

    /// Records the output a scan wrote to `out_path`: it is now held.
    pub fn scan_finished(&mut self, out_path: &str)
        ensures
            strings_view(final(self).owned@) == strings_view(old(self).owned@).push(out_path@),
    {
        let ghost before = strings_view(self.owned@);
        self.owned.push(owned(out_path));
        assert(strings_view(self.owned@) =~= before.push(out_path@));
    }

    /// The outputs to unlink when the command stream ends: all still held.
    pub fn outputs_held(&self) -> (r: Vec<String>)
        ensures
            strings_view(r@) == strings_view(self.owned@),
    {
        copy_strings(&self.owned)
    }
}

} // verus!
