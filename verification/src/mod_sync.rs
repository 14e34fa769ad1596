//! Bringing the stored mod records in line with a repository scan: what to
//! do with each scanned mod, which stored file rows are stale, which stored
//! mods went missing, and the tally of it all.
use vstd::prelude::*;
use crate::conflicts::text_views;
use crate::error::{msg, AppError};
use crate::metadata::{lifecycle_text, lifecycle_to_database, ModLifecycleState};
use crate::text::{chars_eq, copy_str, to_chars};

verus! {

/// How many mods a synchronization added, changed, left alone, found broken
/// and found missing.
#[derive(Clone, Copy, Debug, PartialEq, Eq, Structural)]
pub struct ModSyncOutcome {
    pub added: u64,
    pub updated: u64,
    pub unchanged: u64,
    pub broken: u64,
    pub missing: u64,
}

impl Default for ModSyncOutcome {
    fn default() -> (r: Self)
        ensures
            r == (ModSyncOutcome { added: 0, updated: 0, unchanged: 0, broken: 0, missing: 0 }),
    {
        ModSyncOutcome { added: 0, updated: 0, unchanged: 0, broken: 0, missing: 0 }
    }
}

/// Where the content of a stored mod lives.
pub struct ModContentReference {
    pub repository_path: String,
    pub preview_path: Option<String>,
}

/// A stored mod record that a scanned mod matches by logical id or by
/// repository path.
pub struct StoredModRecord {
    pub id: String,
    pub repository_path: String,
    pub content_fingerprint: Option<String>,
    pub lifecycle_state: String,
}

/// The identity and state of a stored mod.
pub struct StoredModState {
    pub id: String,
    pub lifecycle_state: String,
}

/// What to do with the record of a scanned mod.
#[derive(Debug)]
pub enum SyncAction {
    /// No record matches: insert a new one.
    Insert,
    /// The record with this id differs from the scan: rewrite it.
    Update { mod_id: String },
    /// The record with this id already agrees with the scan.
    Keep { mod_id: String },
}

pub open spec fn scanned_state(broken: bool) -> ModLifecycleState {
    if broken {
        ModLifecycleState::Broken
    } else {
        ModLifecycleState::Installed
    }
}

/// The stored record differs from the scanned mod in path, fingerprint or
/// state.
pub open spec fn record_changed(row: StoredModRecord, repository_path: Seq<char>, fingerprint: Seq<char>, broken: bool) -> bool {
    ||| row.repository_path@ != repository_path
    ||| !(row.content_fingerprint matches Some(f) && f@ == fingerprint)
    ||| row.lifecycle_state@ != lifecycle_text(scanned_state(broken))
}

/// A stored record is kept as it is only when it agrees with the scan in
/// every respect: the same repository path, a stored fingerprint equal to
/// the scanned one, and the state `broken` for a broken scan or `installed`
/// otherwise. A missing or different fingerprint, another path or another
/// state all mean the record changed.
pub proof fn lemma_record_changed(row: StoredModRecord, repository_path: Seq<char>, fingerprint: Seq<char>, broken: bool)
    ensures
        !record_changed(row, repository_path, fingerprint, broken) <==> row.repository_path@ == repository_path
            && row.content_fingerprint is Some && row.content_fingerprint->0@ == fingerprint && row.lifecycle_state@
            == (if broken {
            "broken"@
        } else {
            "installed"@
        }),
{
    reveal_strlit("broken");
    reveal_strlit("installed");
}

fn texts_equal(a: &str, b: &str) -> (r: bool)
    ensures
        r == (a@ == b@),
{
    chars_eq(to_chars(a).as_slice(), to_chars(b).as_slice())
}

/// Decides what to do with the record of a scanned mod, given the stored
/// records that share its logical id or its repository path. More than one
/// such record means the database is inconsistent.
pub fn plan_mod_sync(matches: &Vec<StoredModRecord>, repository_path: &str, fingerprint: &str, broken: bool) -> (r: Result<
    SyncAction,
    AppError,
>)
    ensures
        matches@.len() > 1 <==> r is Err,
        r matches Err(e) ==> e is DataIntegrity,
        matches@.len() == 0 ==> r matches Ok(SyncAction::Insert),
        matches@.len() == 1 ==> ({
            let row = matches@[0];
            if record_changed(row, repository_path@, fingerprint@, broken) {
                r matches Ok(SyncAction::Update { mod_id }) && mod_id@ == row.id@
            } else {
                r matches Ok(SyncAction::Keep { mod_id }) && mod_id@ == row.id@
            }
        }),
{
    if matches.len() > 1 {
        return Err(AppError::DataIntegrity(msg("逻辑 ID 与仓库路径指向不同数据库记录。")));
    }
    if matches.len() == 0 {
        return Ok(SyncAction::Insert);
    }
    let row = &matches[0];
    let state = lifecycle_to_database(if broken {
        ModLifecycleState::Broken
    } else {
        ModLifecycleState::Installed
    });
    let same_fingerprint = match &row.content_fingerprint {
        Some(f) => texts_equal(f.as_str(), fingerprint),
        None => false,
    };
    let changed = !texts_equal(row.repository_path.as_str(), repository_path) || !same_fingerprint || !texts_equal(
        row.lifecycle_state.as_str(),
        state,
    );
    if changed {
        Ok(SyncAction::Update { mod_id: copy_str(row.id.as_str()) })
    } else {
        Ok(SyncAction::Keep { mod_id: copy_str(row.id.as_str()) })
    }
}

impl ModSyncOutcome {
    /// Counts one scanned mod: broken or not, and what was done with its
    /// record.
    pub fn record_scanned(&mut self, action: &SyncAction, broken: bool)
        requires
            old(self).added < u64::MAX,
            old(self).updated < u64::MAX,
            old(self).unchanged < u64::MAX,
            old(self).broken < u64::MAX,
        ensures
            final(self).broken == old(self).broken + (if broken { 1int } else { 0int }),
            final(self).added == old(self).added + (if action is Insert { 1int } else { 0int }),
            final(self).updated == old(self).updated + (if action is Update { 1int } else { 0int }),
            final(self).unchanged == old(self).unchanged + (if action is Keep { 1int } else { 0int }),
            final(self).missing == old(self).missing,
            final(self).added + final(self).updated + final(self).unchanged == old(self).added + old(self).updated
                + old(self).unchanged + 1,
    {
        if broken {
            self.broken = self.broken + 1;
        }
        match action {
            SyncAction::Insert => {
                self.added = self.added + 1;
            },
            SyncAction::Update { .. } => {
                self.updated = self.updated + 1;
            },
            SyncAction::Keep { .. } => {
                self.unchanged = self.unchanged + 1;
            },
        }
    }

    /// Counts stored mods that the scan no longer found.
    pub fn record_missing(&mut self, count: u64)
        requires
            old(self).missing + count <= u64::MAX,
        ensures
            *final(self) == (ModSyncOutcome { missing: (old(self).missing + count) as u64, ..*old(self) }),
    {
        self.missing = self.missing + count;
    }
}

pub open spec fn not_in(v: Seq<Seq<char>>) -> spec_fn(Seq<char>) -> bool {
    |p: Seq<char>| !v.contains(p)
}

fn contains_text(v: &Vec<String>, x: &str) -> (b: bool)
    ensures
        b == text_views(v@).contains(x@),
{
    let mut i: usize = 0;
    while i < v.len()
        invariant
            i <= v@.len(),
            forall|k: int| 0 <= k < i ==> v@[k]@ != x@,
        decreases v@.len() - i,
    {
        if texts_equal(v[i].as_str(), x) {
            proof {
                assert(text_views(v@)[i as int] == x@);
            }
            return true;
        }
        i = i + 1;
    }
    proof {
        if text_views(v@).contains(x@) {
            let k = choose|k: int| 0 <= k < text_views(v@).len() && text_views(v@)[k] == x@;
            assert(v@[k]@ == x@);
        }
    }
    false
}

/// The stored file paths of a mod that its scan no longer lists, in stored
/// order.
pub fn stale_file_paths(stored: &Vec<String>, current: &Vec<String>) -> (r: Vec<String>)
    ensures
        text_views(r@) == text_views(stored@).filter(not_in(text_views(current@))),
{
    let ghost ss = text_views(stored@);
    let ghost pred = not_in(text_views(current@));
    let mut r: Vec<String> = Vec::new();
    let mut i: usize = 0;
    proof {
        assert(ss.take(0).filter(pred) =~= Seq::<Seq<char>>::empty());
    }
    while i < stored.len()
        invariant
            i <= stored@.len(),
            ss == text_views(stored@),
            pred == not_in(text_views(current@)),
            text_views(r@) == ss.take(i as int).filter(pred),
        decreases stored@.len() - i,
    {
        proof {
            assert(ss.take(i + 1) =~= ss.take(i as int).push(ss[i as int]));
            ss.take(i as int).lemma_filter_push(ss[i as int], pred);
        }
        if !contains_text(current, stored[i].as_str()) {
            let ghost old_r = r@;
            r.push(copy_str(stored[i].as_str()));
            proof {
                assert(text_views(r@) =~= text_views(old_r).push(ss[i as int]));
            }
        }
        i = i + 1;
    }
    proof {
        assert(ss.take(stored@.len() as int) =~= ss);
    }
    r
}

pub open spec fn goes_missing(seen: Seq<Seq<char>>) -> spec_fn((Seq<char>, Seq<char>)) -> bool {
    |m: (Seq<char>, Seq<char>)| !seen.contains(m.0) && m.1 != "broken"@
}

pub open spec fn state_views(v: Seq<StoredModState>) -> Seq<(Seq<char>, Seq<char>)> {
    v.map_values(|m: StoredModState| (m.id@, m.lifecycle_state@))
}

/// The stored mods that the scan did not see and that are not yet marked
/// broken, in stored order: they are to be marked broken.
pub fn missing_mods(stored: &Vec<StoredModState>, seen: &Vec<String>) -> (r: Vec<String>)
    ensures
        text_views(r@) == state_views(stored@).filter(goes_missing(text_views(seen@))).map_values(
            |m: (Seq<char>, Seq<char>)| m.0,
        ),
{
    let ghost ss = state_views(stored@);
    let ghost pred = goes_missing(text_views(seen@));
    let ghost first = |m: (Seq<char>, Seq<char>)| m.0;
    let broken = lifecycle_to_database(ModLifecycleState::Broken);
    let mut r: Vec<String> = Vec::new();
    let mut i: usize = 0;
    proof {
        assert(ss.take(0).filter(pred) =~= Seq::<(Seq<char>, Seq<char>)>::empty());
        assert(text_views(r@) =~= ss.take(0).filter(pred).map_values(first));
    }
    while i < stored.len()
        invariant
            i <= stored@.len(),
            ss == state_views(stored@),
            pred == goes_missing(text_views(seen@)),
            first == (|m: (Seq<char>, Seq<char>)| m.0),
            broken@ == "broken"@,
            text_views(r@) == ss.take(i as int).filter(pred).map_values(first),
        decreases stored@.len() - i,
    {
        proof {
            assert(ss.take(i + 1) =~= ss.take(i as int).push(ss[i as int]));
            ss.take(i as int).lemma_filter_push(ss[i as int], pred);
        }
        let m = &stored[i];
        if !contains_text(seen, m.id.as_str()) && !texts_equal(m.lifecycle_state.as_str(), broken) {
            let ghost old_r = r@;
            r.push(copy_str(m.id.as_str()));
            proof {
                assert(ss[i as int] == (m.id@, m.lifecycle_state@));
                assert(pred(ss[i as int]));
                let prev = ss.take(i as int).filter(pred);
                assert(ss.take(i + 1).filter(pred) == prev.push(ss[i as int]));
                assert(prev.push(ss[i as int]).map_values(first) =~= prev.map_values(first).push(m.id@));
                assert(text_views(r@) =~= text_views(old_r).push(m.id@));
            }
        } else {
            proof {
                assert(ss[i as int] == (m.id@, m.lifecycle_state@));
                assert(!pred(ss[i as int]));
            }
        }
        i = i + 1;
    }
    proof {
        assert(ss.take(stored@.len() as int) =~= ss);
    }
    r
}

} // verus!
