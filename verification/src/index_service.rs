//! The index store: reconciliation of the cached index against a fresh
//! filesystem scan, and the folder-list operations on the index.
//!
//! Reconciliation makes the directory tree authoritative for which
//! documents exist and for their modification timestamps, while the cached
//! index stays authoritative for every other piece of metadata as long as
//! the backing file is still present.

use vstd::prelude::*;

use crate::model::{
    folder_metas_of, metas_of, FolderMeta, FolderMetaModel, PromptIndex, PromptIndexModel,
    PromptMetadata, PromptMetadataModel,
};
use crate::strutil::{chars_vec, is_space, is_space_char, lemma_lex_le_total,
    lemma_lex_le_trans, lex_le, str_eq_str, str_le, string_from_chars, vec_contains_str};
use crate::AppResult;

verus! {

/// One discovered document file: its logical folder (empty for the root),
/// its filename, and its on-disk modification timestamp where available,
/// already rendered in the index's fixed-width text form.
pub struct ScanEntry {
    pub folder: String,
    pub filename: String,
    pub modified: Option<String>,
}

#[verifier::ext_equal]
pub struct ScanEntryModel {
    pub folder: Seq<char>,
    pub filename: Seq<char>,
    pub modified: Option<Seq<char>>,
}

impl View for ScanEntry {
    type V = ScanEntryModel;

    open spec fn view(&self) -> ScanEntryModel {
        ScanEntryModel {
            folder: self.folder@,
            filename: self.filename@,
            modified: self.modified.deep_view(),
        }
    }
}

/// The views of a sequence of scan entries, element by element.
pub open spec fn scans_of(v: Seq<ScanEntry>) -> Seq<ScanEntryModel> {
    Seq::new(v.len(), |i: int| v[i]@)
}

/// Whether an index entry occupies the same `(folder, filename)` slot as a
/// discovered file.
pub open spec fn key_matches(p: PromptMetadataModel, s: ScanEntryModel) -> bool {
    p.folder == s.folder && p.filename == s.filename
}

/// Whether some entry occupies the discovered file's slot.
pub open spec fn has_key(ps: Seq<PromptMetadataModel>, s: ScanEntryModel) -> bool {
    exists|j: int| 0 <= j < ps.len() && key_matches(ps[j], s)
}

/// The greatest index of an entry occupying the discovered file's slot, or
/// `-1` when there is none.  When several entries share a slot the latest
/// one wins, as a keyed lookup built front to back would decide.
pub open spec fn last_match(ps: Seq<PromptMetadataModel>, s: ScanEntryModel) -> int
    decreases ps.len(),
{
    if ps.len() == 0 {
        -1
    } else if key_matches(ps.last(), s) {
        ps.len() - 1
    } else {
        last_match(ps.drop_last(), s)
    }
}

/// What [`last_match`] returns: the greatest matching index, or `-1`
/// exactly when no entry matches.
pub proof fn lemma_last_match(ps: Seq<PromptMetadataModel>, s: ScanEntryModel)
    ensures
        -1 <= last_match(ps, s) < ps.len(),
        last_match(ps, s) >= 0 ==> key_matches(ps[last_match(ps, s)], s),
        forall|k: int| last_match(ps, s) < k < ps.len() ==> !key_matches(ps[k], s),
        (last_match(ps, s) >= 0) == has_key(ps, s),
    decreases ps.len(),
{
    if ps.len() > 0 && !key_matches(ps.last(), s) {
        lemma_last_match(ps.drop_last(), s);
        assert(forall|j: int|
            0 <= j < ps.len() - 1 ==> ps.drop_last()[j] == ps[j]);
        if has_key(ps, s) {
            let j = choose|j: int| 0 <= j < ps.len() && key_matches(ps[j], s);
            assert(j < ps.len() - 1);
            assert(key_matches(ps.drop_last()[j], s));
        }
    }
}

/// Finds the entry occupying the discovered file's slot, searching from
/// the back.
fn find_last_key(prompts: &Vec<PromptMetadata>, s: &ScanEntry) -> (r: Option<usize>)
    ensures
        match r {
            Some(j) => j < prompts@.len() && j == last_match(metas_of(prompts@), s@),
            None => !has_key(metas_of(prompts@), s@),
        },
{
    proof {
        lemma_last_match(metas_of(prompts@), s@);
    }
    let ghost ps = metas_of(prompts@);
    let mut j = prompts.len();
    while j > 0
        invariant
            ps == metas_of(prompts@),
            j <= prompts@.len(),
            forall|k: int| j <= k < ps.len() ==> !key_matches(ps[k], s@),
        decreases j,
    {
        j = j - 1;
        let folder_eq = str_eq_str(prompts[j].folder.as_str(), s.folder.as_str());
        let filename_eq = str_eq_str(prompts[j].filename.as_str(), s.filename.as_str());
        if folder_eq && filename_eq {
            proof {
                lemma_last_match(ps, s@);
                assert(key_matches(ps[j as int], s@));
            }
            return Some(j);
        }
        assert(!key_matches(ps[j as int], s@));
    }
    None
}

/// The index of the last `.` in a filename, or `-1` when there is none.
pub open spec fn last_dot(s: Seq<char>) -> int
    decreases s.len(),
{
    if s.len() == 0 {
        -1
    } else if s.last() == '.' {
        s.len() - 1
    } else {
        last_dot(s.drop_last())
    }
}

proof fn lemma_last_dot(s: Seq<char>)
    ensures
        -1 <= last_dot(s) < s.len(),
        last_dot(s) >= 0 ==> s[last_dot(s)] == '.',
        forall|k: int| last_dot(s) < k < s.len() ==> s[k] != '.',
    decreases s.len(),
{
    if s.len() > 0 && s.last() != '.' {
        lemma_last_dot(s.drop_last());
        assert(forall|j: int| 0 <= j < s.len() - 1 ==> s.drop_last()[j] == s[j]);
    }
}

/// The filename without its extension, as the platform's path library
/// would strip it: everything before the last `.`, unless the only `.` is
/// the leading character, in which case the whole name stands.
pub open spec fn stem_of(s: Seq<char>) -> Seq<char> {
    if last_dot(s) <= 0 {
        s
    } else {
        s.take(last_dot(s))
    }
}

/// The stem with `_` and `-` turned into spaces.
pub open spec fn cleaned_of(s: Seq<char>) -> Seq<char> {
    Seq::new(s.len(), |i: int| if s[i] == '_' || s[i] == '-' { ' ' } else { s[i] })
}

/// Whether every character is whitespace.
pub open spec fn all_space(s: Seq<char>) -> bool {
    forall|i: int| 0 <= i < s.len() ==> is_space(s[i])
}

/// The display name derived from a filename: strip the extension, turn
/// `_` and `-` into spaces, and fall back to a generic name when nothing
/// readable remains.
pub open spec fn title_of(s: Seq<char>) -> Seq<char> {
    if s.len() == 0 {
        "untitled"@
    } else {
        let cl = cleaned_of(stem_of(s));
        if all_space(cl) {
            "Untitled"@
        } else {
            cl
        }
    }
}

/// Computes [`title_of`].
pub fn filename_to_title(filename: &str) -> (r: String)
    ensures
        r@ == title_of(filename@),
{
    let cs = chars_vec(filename);
    let n = cs.len();
    if n == 0 {
        return String::from_str("untitled");
    }
    proof {
        lemma_last_dot(cs@);
    }
    // Locate the last dot, if any.
    let mut dot: usize = 0;
    let mut has_dot = false;
    let mut i: usize = 0;
    while i < n
        invariant
            n == cs@.len(),
            i <= n,
            !has_dot ==> forall|j: int| 0 <= j < i ==> cs@[j] != '.',
            has_dot ==> dot < i && cs@[dot as int] == '.' && forall|j: int|
                dot < j < i ==> cs@[j] != '.',
        decreases n - i,
    {
        if cs[i] == '.' {
            dot = i;
            has_dot = true;
        }
        i = i + 1;
    }
    assert(has_dot ==> last_dot(cs@) == dot);
    assert(!has_dot ==> last_dot(cs@) == -1);
    // The stem: drop the extension unless the only dot leads the name.
    let mut stem = cs;
    if has_dot && dot > 0 {
        stem.truncate(dot);
        assert(stem@ =~= stem_of(filename@));
    }
    assert(stem@ == stem_of(filename@));
    // Replace separators with spaces.
    let m = stem.len();
    let mut out: Vec<char> = Vec::new();
    let mut k: usize = 0;
    while k < m
        invariant
            m == stem@.len(),
            k <= m,
            out@.len() == k,
            forall|j: int| 0 <= j < k ==> out@[j] == cleaned_of(stem@)[j],
        decreases m - k,
    {
        let c = stem[k];
        if c == '_' || c == '-' {
            out.push(' ');
        } else {
            out.push(c);
        }
        k = k + 1;
    }
    assert(out@ =~= cleaned_of(stem_of(filename@)));
    // A name that is all whitespace is unusable.
    let mut blank = true;
    let mut k2: usize = 0;
    while k2 < out.len()
        invariant
            k2 <= out@.len(),
            blank == forall|j: int| 0 <= j < k2 ==> is_space(out@[j]),
        decreases out@.len() - k2,
    {
        if !is_space_char(out[k2]) {
            blank = false;
        }
        k2 = k2 + 1;
    }
    if blank {
        String::from_str("Untitled")
    } else {
        string_from_chars(&out)
    }
}

/// A kept entry after reconciliation: the cached entry, with its `updated`
/// timestamp replaced by the file's modification time when one is known.
pub open spec fn refreshed(p: PromptMetadataModel, modified: Option<Seq<char>>) -> PromptMetadataModel {
    match modified {
        Some(t) => PromptMetadataModel { updated: t, ..p },
        None => p,
    }
}

/// A synthesized entry for a file the index did not know: a fresh
/// identifier, a display name derived from the filename, no usage history,
/// and both timestamps set to the file's modification time, or to `now`
/// when none is known.
pub open spec fn fresh_entry(e: PromptMetadataModel, s: ScanEntryModel, now: Seq<char>) -> bool {
    let ts = match s.modified {
        Some(t) => t,
        None => now,
    };
    &&& e.id.len() == 36
    &&& e.name == title_of(s.filename)
    &&& e.folder == s.folder
    &&& e.description == Seq::<char>::empty()
    &&& e.filename == s.filename
    &&& e.use_count == 0
    &&& e.last_used is None
    &&& e.created == ts
    &&& e.updated == ts
    &&& e.icon is None
    &&& e.color is None
}

/// What reconciliation yields for one discovered file: the kept cached
/// entry, or a synthesized one when no cached entry occupies its slot.
pub open spec fn sync_entry_ok(
    old_ps: Seq<PromptMetadataModel>,
    s: ScanEntryModel,
    now: Seq<char>,
    e: PromptMetadataModel,
) -> bool {
    if has_key(old_ps, s) {
        e == refreshed(old_ps[last_match(old_ps, s)], s.modified)
    } else {
        fresh_entry(e, s, now)
    }
}

/// Whether the cached entry at `j` survives reconciliation: some
/// discovered file selects it.
pub open spec fn consumed(
    old_ps: Seq<PromptMetadataModel>,
    sc: Seq<ScanEntryModel>,
    j: int,
) -> bool {
    exists|i: int| 0 <= i < sc.len() && has_key(old_ps, sc[i]) && last_match(old_ps, sc[i]) == j
}

/// Whether a folder list is free of duplicates.
pub open spec fn folders_nodup(fs: Seq<Seq<char>>) -> bool {
    forall|i: int, j: int| 0 <= i < j < fs.len() ==> fs[i] != fs[j]
}

/// The folder list with later duplicates removed, keeping each name's
/// first occurrence.
pub open spec fn dedup_first(fs: Seq<Seq<char>>) -> Seq<Seq<char>>
    decreases fs.len(),
{
    if fs.len() == 0 {
        fs
    } else {
        let rest = dedup_first(fs.drop_last());
        if rest.contains(fs.last()) {
            rest
        } else {
            rest.push(fs.last())
        }
    }
}

/// What [`dedup_first`] yields: a duplicate-free list with the same
/// members, no longer than the input, and of equal length exactly when
/// the input already had no duplicates.
pub proof fn lemma_dedup_first(fs: Seq<Seq<char>>)
    ensures
        dedup_first(fs).len() <= fs.len(),
        folders_nodup(dedup_first(fs)),
        forall|f: Seq<char>| dedup_first(fs).contains(f) == fs.contains(f),
        (dedup_first(fs).len() == fs.len()) == folders_nodup(fs),
    decreases fs.len(),
{
    if fs.len() > 0 {
        let rest = dedup_first(fs.drop_last());
        let cur = dedup_first(fs);
        lemma_dedup_first(fs.drop_last());
        assert(forall|j: int| 0 <= j < fs.len() - 1 ==> fs.drop_last()[j] == fs[j]);
        assert forall|f: Seq<char>| cur.contains(f) == fs.contains(f) by {
            if cur.contains(f) {
                let k = choose|k: int| 0 <= k < cur.len() && cur[k] == f;
                if rest.contains(fs.last()) {
                    assert(rest.contains(f));
                } else {
                    if k < rest.len() {
                        assert(rest[k] == f);
                        assert(rest.contains(f));
                    } else {
                        assert(f == fs.last());
                    }
                }
                if rest.contains(f) {
                    assert(fs.drop_last().contains(f));
                    let j = choose|j: int| 0 <= j < fs.drop_last().len() && fs.drop_last()[j] == f;
                    assert(fs[j] == f);
                    assert(fs.contains(f));
                } else {
                    assert(f == fs.last());
                    assert(fs[fs.len() - 1] == f);
                    assert(fs.contains(f));
                }
            }
            if fs.contains(f) {
                let j = choose|j: int| 0 <= j < fs.len() && fs[j] == f;
                if j < fs.len() - 1 {
                    assert(fs.drop_last()[j] == f);
                    assert(fs.drop_last().contains(f));
                    assert(rest.contains(f));
                    let k = choose|k: int| 0 <= k < rest.len() && rest[k] == f;
                    assert(cur[k] == f);
                    assert(cur.contains(f));
                } else {
                    assert(f == fs.last());
                    if rest.contains(fs.last()) {
                        let k = choose|k: int| 0 <= k < rest.len() && rest[k] == fs.last();
                        assert(cur[k] == f);
                        assert(cur.contains(f));
                    } else {
                        assert(cur[cur.len() - 1] == f);
                        assert(cur.contains(f));
                    }
                }
            }
        }
        if folders_nodup(fs) {
            assert(!fs.drop_last().contains(fs.last())) by {
                if fs.drop_last().contains(fs.last()) {
                    let j = choose|j: int|
                        0 <= j < fs.drop_last().len() && fs.drop_last()[j] == fs.last();
                    assert(fs[j] == fs[fs.len() - 1]);
                }
            }
        }
        if dedup_first(fs).len() == fs.len() {
            assert(rest.len() == fs.len() - 1);
            assert(folders_nodup(fs.drop_last()));
            assert(!rest.contains(fs.last()));
            assert(!fs.drop_last().contains(fs.last()));
            assert forall|i: int, j: int| 0 <= i < j < fs.len() implies fs[i] != fs[j] by {
                if j < fs.len() - 1 {
                    assert(fs.drop_last()[i] == fs[i] && fs.drop_last()[j] == fs[j]);
                } else {
                    assert(fs.drop_last()[i] == fs[i]);
                    if fs[i] == fs[j] {
                        assert(fs.drop_last().contains(fs.last()));
                    }
                }
            }
        }
    }
}

/// The folder list extended by each discovered non-empty folder that it
/// does not yet hold, in scan order.
pub open spec fn folders_plus_discovered(
    fs: Seq<Seq<char>>,
    sc: Seq<ScanEntryModel>,
) -> Seq<Seq<char>>
    decreases sc.len(),
{
    if sc.len() == 0 {
        fs
    } else {
        let pre = folders_plus_discovered(fs, sc.drop_last());
        let f = sc.last().folder;
        if f.len() == 0 || pre.contains(f) {
            pre
        } else {
            pre.push(f)
        }
    }
}

/// Membership in [`folders_plus_discovered`]: a name is present exactly
/// when the base list holds it or some scanned file sits in it.
pub proof fn lemma_folders_plus_discovered(fs: Seq<Seq<char>>, sc: Seq<ScanEntryModel>)
    ensures
        forall|f: Seq<char>| #![trigger folders_plus_discovered(fs, sc).contains(f)]
            folders_plus_discovered(fs, sc).contains(f) == (fs.contains(f) || (exists|i: int|
                0 <= i < sc.len() && sc[i].folder == f && f.len() > 0)),
        folders_nodup(fs) ==> folders_nodup(folders_plus_discovered(fs, sc)),
        fs.len() <= folders_plus_discovered(fs, sc).len(),
        forall|j: int| 0 <= j < fs.len() ==> folders_plus_discovered(fs, sc)[j] == fs[j],
    decreases sc.len(),
{
    if sc.len() > 0 {
        lemma_folders_plus_discovered(fs, sc.drop_last());
        let pre = folders_plus_discovered(fs, sc.drop_last());
        assert(forall|j: int| 0 <= j < sc.len() - 1 ==> sc.drop_last()[j] == sc[j]);
        assert forall|f: Seq<char>|
            folders_plus_discovered(fs, sc).contains(f) == (fs.contains(f) || (exists|i: int|
                0 <= i < sc.len() && sc[i].folder == f && f.len() > 0)) by {
            let cur = folders_plus_discovered(fs, sc);
            if cur.contains(f) {
                let k = choose|k: int| 0 <= k < cur.len() && cur[k] == f;
                if k < pre.len() {
                    assert(pre[k] == f);
                    assert(pre.contains(f));
                } else {
                    assert(f == sc.last().folder && f.len() > 0);
                    assert(sc[sc.len() - 1].folder == f);
                }
            }
            if fs.contains(f) || (exists|i: int|
                0 <= i < sc.len() && sc[i].folder == f && f.len() > 0) {
                if pre.contains(f) {
                    let k = choose|k: int| 0 <= k < pre.len() && pre[k] == f;
                    assert(cur[k] == f);
                    assert(cur.contains(f));
                } else {
                    // Neither the base list nor an earlier scan item holds
                    // the name, so the last scan item discovered it.
                    assert(!fs.contains(f));
                    let i = choose|i: int|
                        0 <= i < sc.len() && sc[i].folder == f && f.len() > 0;
                    if i < sc.len() - 1 {
                        assert(sc.drop_last()[i].folder == f);
                        assert(pre.contains(f));
                    }
                    assert(f == sc.last().folder && f.len() > 0);
                    assert(cur == pre.push(f));
                    assert(cur[cur.len() - 1] == f);
                    assert(cur.contains(f));
                }
            }
        }
        if folders_nodup(fs) {
            let cur = folders_plus_discovered(fs, sc);
            if cur != pre {
                assert(cur == pre.push(sc.last().folder));
                assert(!pre.contains(sc.last().folder));
                assert forall|i: int, j: int| 0 <= i < j < cur.len() implies cur[i] != cur[j] by {
                    if j < cur.len() - 1 {
                        assert(pre[i] == cur[i] && pre[j] == cur[j]);
                    } else {
                        assert(pre[i] == cur[i]);
                        if cur[i] == cur[j] {
                            assert(pre.contains(sc.last().folder));
                        }
                    }
                }
            }
        }
    }
}

/// The rebuilt folder list: the previous list with duplicates removed,
/// then each newly discovered folder appended in scan order.
pub open spec fn sync_folders(fs: Seq<Seq<char>>, sc: Seq<ScanEntryModel>) -> Seq<Seq<char>> {
    folders_plus_discovered(dedup_first(fs), sc)
}

/// Whether reconciliation reports a change, decided entirely by the old
/// index and the scan: a file was refreshed or newly discovered, a cached
/// entry lost its file, the entry count moved, a folder was discovered, or
/// the folder list held duplicates.
pub open spec fn sync_changed(
    old_ps: Seq<PromptMetadataModel>,
    old_folders: Seq<Seq<char>>,
    sc: Seq<ScanEntryModel>,
) -> bool {
    ||| exists|i: int| 0 <= i < sc.len() && !has_key(old_ps, sc[i])
    ||| exists|i: int|
        0 <= i < sc.len() && has_key(old_ps, sc[i]) && sc[i].modified is Some && old_ps[last_match(
            old_ps,
            sc[i],
        )].updated != sc[i].modified->0
    ||| exists|j: int| 0 <= j < old_ps.len() && !consumed(old_ps, sc, j)
    ||| old_ps.len() != sc.len()
    ||| exists|i: int|
        0 <= i < sc.len() && sc[i].folder.len() > 0 && !old_folders.contains(sc[i].folder)
    ||| !folders_nodup(old_folders)
}

/// Everything reconciliation promises: one output entry per discovered
/// file, each kept or synthesized as [`sync_entry_ok`] says; the folder
/// list rebuilt as [`sync_folders`] says; decorations and the seeding flag
/// untouched; and the change report decided by [`sync_changed`].
pub open spec fn sync_post(
    old_idx: PromptIndexModel,
    sc: Seq<ScanEntryModel>,
    now: Seq<char>,
    new_idx: PromptIndexModel,
    changed: bool,
) -> bool {
    &&& new_idx.prompts.len() == sc.len()
    &&& forall|i: int|
        0 <= i < sc.len() ==> sync_entry_ok(old_idx.prompts, sc[i], now, #[trigger] new_idx.prompts[i])
    &&& new_idx.folders == sync_folders(old_idx.folders, sc)
    &&& new_idx.folder_meta == old_idx.folder_meta
    &&& new_idx.seeded == old_idx.seeded
    &&& changed == sync_changed(old_idx.prompts, old_idx.folders, sc)
}

/// Reconciles the cached index against a fresh scan of the documents
/// root and reports whether anything changed.  For each discovered file
/// the cached entry in its `(folder, filename)` slot is kept with its
/// `updated` timestamp refreshed, or a new entry is synthesized; cached
/// entries whose file is gone are dropped; and the folder list becomes the
/// deduplicated union of the previously known folders and the folders in
/// use, in first-seen order.
pub fn sync_index_with_filesystem(
    index: &mut PromptIndex,
    scan: &Vec<ScanEntry>,
    now: &String,
) -> (changed: bool)
    ensures
        sync_post(old(index)@, scans_of(scan@), now@, final(index)@, changed),
{
    let ghost old_idx = old(index)@;
    let ghost ops = old_idx.prompts;
    let ghost sc = scans_of(scan@);
    let n = scan.len();
    let old_len = index.prompts.len();
    let mut consumed_v: Vec<bool> = vec![false; old_len];
    let mut rebuilt: Vec<PromptMetadata> = Vec::new();
    let mut flag_refresh = false;
    let mut flag_synth = false;
    let mut i: usize = 0;
    while i < n
        invariant
            index@ == old_idx,
            ops == old_idx.prompts,
            sc == scans_of(scan@),
            n == sc.len(),
            n == scan@.len(),
            i <= n,
            old_len == ops.len(),
            consumed_v@.len() == old_len,
            forall|j: int|
                0 <= j < old_len ==> #[trigger] consumed_v@[j] == exists|i2: int|
                    0 <= i2 < i && has_key(ops, sc[i2]) && last_match(ops, sc[i2]) == j,
            rebuilt@.len() == i,
            forall|k: int|
                0 <= k < i ==> sync_entry_ok(ops, sc[k], now@, #[trigger] metas_of(rebuilt@)[k]),
            flag_synth == exists|i2: int| 0 <= i2 < i && !has_key(ops, sc[i2]),
            flag_refresh == exists|i2: int|
                0 <= i2 < i && has_key(ops, sc[i2]) && sc[i2].modified is Some && ops[last_match(
                    ops,
                    sc[i2],
                )].updated != sc[i2].modified->0,
        decreases n - i,
    {
        let s_i = &scan[i];
        assert(s_i@ == sc[i as int]);
        match find_last_key(&index.prompts, s_i) {
            Some(j) => {
                proof {
                    lemma_last_match(ops, sc[i as int]);
                }
                consumed_v.set(j, true);
                let mut e = index.prompts[j].duplicate();
                assert(e@ == ops[j as int]);
                match &s_i.modified {
                    Some(ts) => {
                        if !str_eq_str(e.updated.as_str(), ts.as_str()) {
                            flag_refresh = true;
                        }
                        e.updated = ts.clone();
                    },
                    None => {},
                }
                assert(e@ =~= refreshed(ops[j as int], sc[i as int].modified));
                let ghost rebuilt0 = rebuilt@;
                rebuilt.push(e);
                proof {
                    assert forall|k: int| 0 <= k < i implies #[trigger] metas_of(rebuilt@)[k]
                        == metas_of(rebuilt0)[k] by {
                        assert(rebuilt@[k] == rebuilt0[k]);
                    }
                    assert(metas_of(rebuilt@)[i as int] == refreshed(
                        ops[j as int],
                        sc[i as int].modified,
                    ));
                }
            },
            None => {
                flag_synth = true;
                let ts = match &s_i.modified {
                    Some(t) => t.clone(),
                    None => now.clone(),
                };
                let fresh = PromptMetadata {
                    id: crate::ids::new_id(),
                    name: filename_to_title(s_i.filename.as_str()),
                    folder: s_i.folder.clone(),
                    description: String::new(),
                    filename: s_i.filename.clone(),
                    use_count: 0,
                    last_used: None,
                    created: ts.clone(),
                    updated: ts,
                    icon: None,
                    color: None,
                };
                assert(fresh_entry(fresh@, sc[i as int], now@));
                let ghost rebuilt0 = rebuilt@;
                rebuilt.push(fresh);
                proof {
                    assert forall|k: int| 0 <= k < i implies #[trigger] metas_of(rebuilt@)[k]
                        == metas_of(rebuilt0)[k] by {
                        assert(rebuilt@[k] == rebuilt0[k]);
                    }
                    assert(metas_of(rebuilt@)[i as int] == fresh@);
                }
            },
        }
        i = i + 1;
    }
    // Entries whose file disappeared are dropped; that is a change.
    let mut flag_left = false;
    let mut j2: usize = 0;
    while j2 < old_len
        invariant
            consumed_v@.len() == old_len,
            ops.len() == old_len,
            j2 <= old_len,
            forall|j: int|
                0 <= j < old_len ==> #[trigger] consumed_v@[j] == consumed(ops, sc, j),
            flag_left == exists|j: int| 0 <= j < j2 && !consumed(ops, sc, j),
        decreases old_len - j2,
    {
        if !consumed_v[j2] {
            flag_left = true;
        }
        j2 = j2 + 1;
    }
    let flag_len = old_len != n;
    // Rebuild the folder list: deduplicate what was known.
    let mut new_folders: Vec<String> = Vec::new();
    let fl = index.folders.len();
    let mut a: usize = 0;
    while a < fl
        invariant
            index@ == old_idx,
            fl == old_idx.folders.len(),
            a <= fl,
            new_folders.deep_view() == dedup_first(old_idx.folders.take(a as int)),
        decreases fl - a,
    {
        let contained = vec_contains_str(&new_folders, index.folders[a].as_str());
        proof {
            assert(index.folders@[a as int]@ == old_idx.folders[a as int]);
            assert(old_idx.folders.take(a + 1).drop_last() =~= old_idx.folders.take(a as int));
            assert(old_idx.folders.take(a + 1).last() == old_idx.folders[a as int]);
        }
        if !contained {
            let f = index.folders[a].clone();
            new_folders.push(f);
        }
        a = a + 1;
        assert(new_folders.deep_view() =~= dedup_first(old_idx.folders.take(a as int)));
    }
    proof {
        assert(old_idx.folders.take(fl as int) =~= old_idx.folders);
    }
    let flag_dedup = new_folders.len() != fl;
    proof {
        lemma_dedup_first(old_idx.folders);
        assert(new_folders.deep_view().len() == new_folders@.len());
    }
    let ghost ded = dedup_first(old_idx.folders);
    // Then append each folder in use that is not yet listed.
    let mut flag_newf = false;
    let mut b: usize = 0;
    while b < n
        invariant
            index@ == old_idx,
            sc == scans_of(scan@),
            n == sc.len(),
            n == scan@.len(),
            b <= n,
            new_folders.deep_view() == folders_plus_discovered(ded, sc.take(b as int)),
            ded == dedup_first(old_idx.folders),
            forall|f: Seq<char>| ded.contains(f) == old_idx.folders.contains(f),
            flag_newf == exists|i2: int|
                0 <= i2 < b && sc[i2].folder.len() > 0 && !old_idx.folders.contains(sc[i2].folder),
        decreases n - b,
    {
        let ghost pre_b = sc.take(b as int);
        proof {
            lemma_folders_plus_discovered(ded, pre_b);
            assert(sc.take(b + 1).drop_last() =~= pre_b);
            assert(sc.take(b + 1).last() == sc[b as int]);
            assert(scan@[b as int]@ == sc[b as int]);
            assert(forall|i2: int| 0 <= i2 < b ==> pre_b[i2] == sc[i2]);
        }
        let fo = &scan[b].folder;
        if !fo.as_str().is_empty() {
            if !vec_contains_str(&new_folders, fo.as_str()) {
                proof {
                    assert(!folders_plus_discovered(ded, pre_b).contains(fo@));
                    assert(!ded.contains(fo@));
                    assert(!old_idx.folders.contains(fo@));
                }
                flag_newf = true;
                new_folders.push(fo.clone());
            } else {
                proof {
                    // The name is already listed: either it was known
                    // before, or an earlier scan item discovered it and the
                    // change flag is set already.
                    if !old_idx.folders.contains(fo@) {
                        assert(!ded.contains(fo@));
                        assert(folders_plus_discovered(ded, pre_b).contains(fo@));
                        assert(exists|i2: int|
                            0 <= i2 < pre_b.len() && pre_b[i2].folder == fo@ && fo@.len() > 0);
                        let i2 = choose|i2: int|
                            0 <= i2 < pre_b.len() && pre_b[i2].folder == fo@ && fo@.len() > 0;
                        assert(sc[i2].folder.len() > 0 && !old_idx.folders.contains(sc[i2].folder));
                    }
                }
            }
        }
        b = b + 1;
        assert(new_folders.deep_view() =~= folders_plus_discovered(ded, sc.take(b as int)));
    }
    proof {
        assert(sc.take(n as int) =~= sc);
    }
    index.prompts = rebuilt;
    index.folders = new_folders;
    let changed = flag_refresh || flag_synth || flag_left || flag_len || flag_newf || flag_dedup;
    proof {
        assert(index@.prompts =~= metas_of(index.prompts@));
        assert(index@.folders == new_folders.deep_view());
        assert(changed == sync_changed(ops, old_idx.folders, sc));
    }
    changed
}

/// The error message for a folder name that is already taken.
fn folder_exists_msg(name: &str) -> String {
    String::from_str("Folder '").concat(name).concat("' already exists")
}

/// The error message for a folder name that the index does not know.
fn folder_missing_msg(name: &str) -> String {
    String::from_str("Folder '").concat(name).concat("' not found")
}

/// Registers a new folder name at the end of the folder list; a name
/// already present is a conflict.
pub fn add_folder(index: &mut PromptIndex, name: String) -> (r: AppResult<()>)
    ensures
        final(index)@.prompts == old(index)@.prompts,
        final(index)@.folder_meta == old(index)@.folder_meta,
        final(index)@.seeded == old(index)@.seeded,
        r is Ok <==> !old(index)@.folders.contains(name@),
        r is Err ==> final(index)@.folders == old(index)@.folders,
        r is Ok ==> final(index)@.folders == old(index)@.folders.push(name@),
{
    if vec_contains_str(&index.folders, name.as_str()) {
        return Err(folder_exists_msg(name.as_str()));
    }
    index.folders.push(name);
    proof {
        assert(index@.folders =~= old(index)@.folders.push(index.folders@.last()@));
    }
    Ok(())
}

/// The least index at which a folder list holds a name, or `-1` when it
/// does not.
pub open spec fn first_index(fs: Seq<Seq<char>>, f: Seq<char>) -> int
    decreases fs.len(),
{
    if fs.len() == 0 {
        -1
    } else if fs[0] == f {
        0
    } else {
        let r = first_index(fs.drop_first(), f);
        if r == -1 {
            -1
        } else {
            r + 1
        }
    }
}

/// What [`first_index`] returns: the least matching index, or `-1`
/// exactly when the name is absent.
pub proof fn lemma_first_index(fs: Seq<Seq<char>>, f: Seq<char>)
    ensures
        -1 <= first_index(fs, f) < fs.len(),
        first_index(fs, f) >= 0 ==> fs[first_index(fs, f)] == f,
        forall|k: int| 0 <= k < first_index(fs, f) ==> fs[k] != f,
        (first_index(fs, f) >= 0) == fs.contains(f),
        first_index(fs, f) == -1 ==> forall|k: int| 0 <= k < fs.len() ==> fs[k] != f,
    decreases fs.len(),
{
    if fs.len() > 0 && fs[0] != f {
        lemma_first_index(fs.drop_first(), f);
        assert(forall|j: int| 0 <= j < fs.len() - 1 ==> fs.drop_first()[j] == fs[j + 1]);
        if fs.contains(f) {
            let j = choose|j: int| 0 <= j < fs.len() && fs[j] == f;
            assert(fs.drop_first()[j - 1] == f);
            assert(fs.drop_first().contains(f));
        }
        if fs.drop_first().contains(f) {
            let j = choose|j: int| 0 <= j < fs.drop_first().len() && fs.drop_first()[j] == f;
            assert(fs[j + 1] == f);
            assert(fs.contains(f));
        }
        assert forall|k: int| 0 <= k < first_index(fs, f) implies fs[k] != f by {
            if k > 0 {
                assert(fs.drop_first()[k - 1] != f);
            }
        }
        if first_index(fs, f) == -1 {
            assert forall|k: int| 0 <= k < fs.len() implies fs[k] != f by {
                if k > 0 {
                    assert(fs.drop_first()[k - 1] != f);
                }
            }
        }
    }
}

/// Finds the first list slot holding a name.
pub(crate) fn find_folder_position(v: &Vec<String>, name: &str) -> (r: Option<usize>)
    ensures
        match r {
            Some(p) => p < v@.len() && p == first_index(v.deep_view(), name@),
            None => first_index(v.deep_view(), name@) == -1,
        },
{
    proof {
        lemma_first_index(v.deep_view(), name@);
    }
    let n = v.len();
    let mut i: usize = 0;
    while i < n
        invariant
            n == v@.len(),
            i <= n,
            forall|k: int| 0 <= k < i ==> v.deep_view()[k] != name@,
        decreases n - i,
    {
        if str_eq_str(v[i].as_str(), name) {
            proof {
                lemma_first_index(v.deep_view(), name@);
                assert(v.deep_view()[i as int] == name@);
            }
            return Some(i);
        }
        i = i + 1;
    }
    None
}

/// An entry whose folder field matched the renamed folder, after the
/// rename; any other entry unchanged.
pub open spec fn entry_folder_renamed(
    p: PromptMetadataModel,
    o: Seq<char>,
    n: Seq<char>,
) -> PromptMetadataModel {
    if p.folder == o {
        PromptMetadataModel { folder: n, ..p }
    } else {
        p
    }
}

/// An entry whose folder field matched the deleted folder, relocated to
/// the root; any other entry unchanged.
pub open spec fn entry_folder_cleared(p: PromptMetadataModel, o: Seq<char>) -> PromptMetadataModel {
    if p.folder == o {
        PromptMetadataModel { folder: Seq::empty(), ..p }
    } else {
        p
    }
}

/// The least index of a folder record with a given name, or `-1`.
pub open spec fn first_meta_index(ms: Seq<FolderMetaModel>, name: Seq<char>) -> int
    decreases ms.len(),
{
    if ms.len() == 0 {
        -1
    } else if ms[0].name == name {
        0
    } else {
        let r = first_meta_index(ms.drop_first(), name);
        if r == -1 {
            -1
        } else {
            r + 1
        }
    }
}

proof fn lemma_first_meta_index(ms: Seq<FolderMetaModel>, name: Seq<char>)
    ensures
        -1 <= first_meta_index(ms, name) < ms.len(),
        first_meta_index(ms, name) >= 0 ==> ms[first_meta_index(ms, name)].name == name,
        forall|k: int| 0 <= k < first_meta_index(ms, name) ==> ms[k].name != name,
        first_meta_index(ms, name) == -1 ==> forall|k: int|
            0 <= k < ms.len() ==> ms[k].name != name,
    decreases ms.len(),
{
    if ms.len() > 0 && ms[0].name != name {
        lemma_first_meta_index(ms.drop_first(), name);
        assert(forall|j: int| 0 <= j < ms.len() - 1 ==> ms.drop_first()[j] == ms[j + 1]);
        assert forall|k: int| 0 <= k < first_meta_index(ms, name) implies ms[k].name != name by {
            if k > 0 {
                assert(ms.drop_first()[k - 1].name != name);
            }
        }
        if first_meta_index(ms, name) == -1 {
            assert forall|k: int| 0 <= k < ms.len() implies ms[k].name != name by {
                if k > 0 {
                    assert(ms.drop_first()[k - 1].name != name);
                }
            }
        }
    }
}

/// The folder records that survive a rename: every record except the
/// renamed slot itself and any record already holding the new name.
pub open spec fn metas_kept(
    ms: Seq<FolderMetaModel>,
    skip: int,
    n: Seq<char>,
) -> Seq<FolderMetaModel>
    decreases ms.len(),
{
    if ms.len() == 0 {
        ms
    } else {
        let rest = metas_kept(ms.drop_last(), skip, n);
        if ms.len() - 1 == skip || ms.last().name == n {
            rest
        } else {
            rest.push(ms.last())
        }
    }
}

/// The folder decoration list after a rename: the record first holding
/// the old name is re-keyed to the new name and moved to the end,
/// replacing any record already keyed by the new name; without such a
/// record the list is untouched.
pub open spec fn meta_rename(
    ms: Seq<FolderMetaModel>,
    o: Seq<char>,
    n: Seq<char>,
) -> Seq<FolderMetaModel> {
    let i = first_meta_index(ms, o);
    if i == -1 {
        ms
    } else {
        metas_kept(ms, i, n).push(FolderMetaModel { name: n, ..ms[i] })
    }
}

/// The folder records whose name differs from the deleted folder's.
pub open spec fn metas_without(ms: Seq<FolderMetaModel>, n: Seq<char>) -> Seq<FolderMetaModel>
    decreases ms.len(),
{
    if ms.len() == 0 {
        ms
    } else {
        let rest = metas_without(ms.drop_last(), n);
        if ms.last().name == n {
            rest
        } else {
            rest.push(ms.last())
        }
    }
}

/// Finds the first folder record holding a name.
fn find_first_meta(ms: &Vec<FolderMeta>, name: &str) -> (r: Option<usize>)
    ensures
        match r {
            Some(p) => p < ms@.len() && p == first_meta_index(folder_metas_of(ms@), name@),
            None => first_meta_index(folder_metas_of(ms@), name@) == -1,
        },
{
    proof {
        lemma_first_meta_index(folder_metas_of(ms@), name@);
    }
    let ghost msm = folder_metas_of(ms@);
    let n = ms.len();
    let mut i: usize = 0;
    while i < n
        invariant
            n == ms@.len(),
            msm == folder_metas_of(ms@),
            i <= n,
            forall|k: int| 0 <= k < i ==> msm[k].name != name@,
        decreases n - i,
    {
        if str_eq_str(ms[i].name.as_str(), name) {
            proof {
                lemma_first_meta_index(msm, name@);
                assert(msm[i as int].name == name@);
            }
            return Some(i);
        }
        assert(msm[i as int].name != name@);
        i = i + 1;
    }
    None
}

/// Builds the decoration list after a folder rename.
pub(crate) fn rename_meta_list(ms: &Vec<FolderMeta>, old_name: &str, new_name: &str) -> (r: Vec<FolderMeta>)
    ensures
        folder_metas_of(r@) == meta_rename(folder_metas_of(ms@), old_name@, new_name@),
{
    let ghost msm = folder_metas_of(ms@);
    proof {
        lemma_first_meta_index(msm, old_name@);
    }
    let n = ms.len();
    let found_idx = find_first_meta(ms, old_name);
    if found_idx.is_none() {
        // No record to re-key: copy the list unchanged.
        let mut out: Vec<FolderMeta> = Vec::new();
        let mut k: usize = 0;
        while k < n
            invariant
                n == ms@.len(),
                msm == folder_metas_of(ms@),
                k <= n,
                out@.len() == k,
                forall|j: int| 0 <= j < k ==> #[trigger] folder_metas_of(out@)[j] == msm[j],
            decreases n - k,
        {
            let ghost out0 = out@;
            out.push(ms[k].duplicate());
            proof {
                assert(forall|j: int|
                    0 <= j < k ==> #[trigger] folder_metas_of(out@)[j] == folder_metas_of(out0)[j]);
            }
            k = k + 1;
        }
        assert(folder_metas_of(out@) =~= msm);
        return out;
    }
    let idx = found_idx.unwrap();
    assert(msm[idx as int].name == old_name@);
    assert(first_meta_index(msm, old_name@) == idx);
    let record = ms[idx].duplicate();
    // Keep every other record not already keyed by the new name.
    let mut out: Vec<FolderMeta> = Vec::new();
    let mut k: usize = 0;
    while k < n
        invariant
            n == ms@.len(),
            msm == folder_metas_of(ms@),
            k <= n,
            idx < n,
            folder_metas_of(out@) == metas_kept(msm.take(k as int), idx as int, new_name@),
        decreases n - k,
    {
        proof {
            assert(msm.take(k + 1).drop_last() =~= msm.take(k as int));
            assert(msm.take(k + 1).last() == msm[k as int]);
        }
        if k != idx && !str_eq_str(ms[k].name.as_str(), new_name) {
            out.push(ms[k].duplicate());
        }
        k = k + 1;
        assert(folder_metas_of(out@) =~= metas_kept(msm.take(k as int), idx as int, new_name@));
    }
    proof {
        assert(msm.take(n as int) =~= msm);
    }
    let mut renamed = record;
    renamed.name = String::from_str(new_name);
    out.push(renamed);
    proof {
        assert(folder_metas_of(out@) =~= meta_rename(msm, old_name@, new_name@));
    }
    out
}

/// Builds the decoration list after a folder deletion.
pub(crate) fn remove_meta_list(ms: &Vec<FolderMeta>, name: &str) -> (r: Vec<FolderMeta>)
    ensures
        folder_metas_of(r@) == metas_without(folder_metas_of(ms@), name@),
{
    let ghost msm = folder_metas_of(ms@);
    let n = ms.len();
    let mut out: Vec<FolderMeta> = Vec::new();
    let mut k: usize = 0;
    while k < n
        invariant
            n == ms@.len(),
            msm == folder_metas_of(ms@),
            k <= n,
            folder_metas_of(out@) == metas_without(msm.take(k as int), name@),
        decreases n - k,
    {
        proof {
            assert(msm.take(k + 1).drop_last() =~= msm.take(k as int));
            assert(msm.take(k + 1).last() == msm[k as int]);
        }
        if !str_eq_str(ms[k].name.as_str(), name) {
            out.push(ms[k].duplicate());
        }
        k = k + 1;
        assert(folder_metas_of(out@) =~= metas_without(msm.take(k as int), name@));
    }
    proof {
        assert(msm.take(n as int) =~= msm);
    }
    out
}

/// Renames a folder in the index: the folder list slot, every entry's
/// folder field, and the decoration record all move to the new name.  A
/// target name already listed is a conflict, and an unknown source name is
/// an error; the index is untouched on error.  Timestamps are not
/// refreshed here.
pub fn rename_folder(index: &mut PromptIndex, old_name: &str, new_name: &str) -> (r: AppResult<()>)
    ensures
        old(index)@.folders.contains(new_name@) ==> r is Err && final(index)@ == old(index)@,
        !old(index)@.folders.contains(new_name@) && !old(index)@.folders.contains(old_name@)
            ==> r is Err && final(index)@ == old(index)@,
        !old(index)@.folders.contains(new_name@) && old(index)@.folders.contains(old_name@) ==> {
            &&& r is Ok
            &&& final(index)@.folders == old(index)@.folders.update(
                first_index(old(index)@.folders, old_name@),
                new_name@,
            )
            &&& final(index)@.prompts.len() == old(index)@.prompts.len()
            &&& forall|i: int|
                0 <= i < old(index)@.prompts.len() ==> #[trigger] final(index)@.prompts[i]
                    == entry_folder_renamed(old(index)@.prompts[i], old_name@, new_name@)
            &&& final(index)@.folder_meta == match old(index)@.folder_meta {
                None => None,
                Some(ms) => Some(meta_rename(ms, old_name@, new_name@)),
            }
            &&& final(index)@.seeded == old(index)@.seeded
        },
{
    let ghost old_idx = old(index)@;
    if vec_contains_str(&index.folders, new_name) {
        return Err(folder_exists_msg(new_name));
    }
    let pos = match find_folder_position(&index.folders, old_name) {
        Some(p) => p,
        None => {
            proof {
                lemma_first_index(old_idx.folders, old_name@);
            }
            return Err(folder_missing_msg(old_name));
        },
    };
    proof {
        lemma_first_index(old_idx.folders, old_name@);
    }
    index.folders.set(pos, String::from_str(new_name));
    proof {
        assert(index@.folders =~= old_idx.folders.update(pos as int, new_name@));
    }
    // Every entry filed under the old name moves to the new name.
    let n = index.prompts.len();
    let mut i: usize = 0;
    while i < n
        invariant
            n == index.prompts@.len(),
            n == old_idx.prompts.len(),
            i <= n,
            index@.folders == old_idx.folders.update(first_index(old_idx.folders, old_name@), new_name@),
            index@.folder_meta == old_idx.folder_meta,
            index@.seeded == old_idx.seeded,
            forall|k: int|
                0 <= k < i ==> #[trigger] index@.prompts[k] == entry_folder_renamed(
                    old_idx.prompts[k],
                    old_name@,
                    new_name@,
                ),
            forall|k: int| i <= k < n ==> #[trigger] index@.prompts[k] == old_idx.prompts[k],
        decreases n - i,
    {
        proof {
            assert(index@.prompts[i as int] == old_idx.prompts[i as int]);
            assert(index.prompts@[i as int]@ == index@.prompts[i as int]);
        }
        if str_eq_str(index.prompts[i].folder.as_str(), old_name) {
            let ghost before = index@.prompts;
            let mut e = index.prompts[i].duplicate();
            e.folder = String::from_str(new_name);
            assert(e@ =~= entry_folder_renamed(old_idx.prompts[i as int], old_name@, new_name@));
            index.prompts.set(i, e);
            proof {
                assert(forall|k: int|
                    0 <= k < n && k != i ==> #[trigger] index@.prompts[k] == before[k]);
                assert(index@.prompts[i as int] == e@);
            }
        } else {
            proof {
                assert(index@.prompts[i as int] == entry_folder_renamed(
                    old_idx.prompts[i as int],
                    old_name@,
                    new_name@,
                ));
            }
        }
        i = i + 1;
    }
    proof {
        assert(forall|k: int|
            0 <= k < n ==> #[trigger] index@.prompts[k] == entry_folder_renamed(
                old_idx.prompts[k],
                old_name@,
                new_name@,
            ));
    }
    // Re-key the decoration record.
    let ghost pm_snapshot = index@.prompts;
    let ghost fl_snapshot = index@.folders;
    let new_meta: Option<Vec<FolderMeta>> = match &index.folder_meta {
        None => None,
        Some(ms) => Some(rename_meta_list(ms, old_name, new_name)),
    };
    index.folder_meta = new_meta;
    proof {
        assert(index@.prompts == pm_snapshot);
        assert(index@.folders == fl_snapshot);
    }
    proof {
        assert(index@.folders == old_idx.folders.update(
            first_index(old_idx.folders, old_name@),
            new_name@,
        ));
        assert(forall|k: int|
            0 <= k < n ==> #[trigger] index@.prompts[k] == entry_folder_renamed(
                old_idx.prompts[k],
                old_name@,
                new_name@,
            ));
    }
    Ok(())
}

/// Removes a folder from the index: the folder list drops every slot with
/// the name, every entry filed under it moves to the root, and its
/// decoration record is dropped.  Documents are never deleted here.
pub fn delete_folder(index: &mut PromptIndex, name: &str) -> (r: AppResult<()>)
    ensures
        r is Ok,
        final(index)@.folders == folders_without(old(index)@.folders, name@),
        final(index)@.prompts.len() == old(index)@.prompts.len(),
        forall|i: int|
            0 <= i < old(index)@.prompts.len() ==> #[trigger] final(index)@.prompts[i]
                == entry_folder_cleared(old(index)@.prompts[i], name@),
        final(index)@.folder_meta == match old(index)@.folder_meta {
            None => None,
            Some(ms) => Some(metas_without(ms, name@)),
        },
        final(index)@.seeded == old(index)@.seeded,
{
    let ghost old_idx = old(index)@;
    // Drop the name from the folder list.
    let fl = index.folders.len();
    let mut kept: Vec<String> = Vec::new();
    let mut a: usize = 0;
    while a < fl
        invariant
            index@ == old_idx,
            fl == old_idx.folders.len(),
            a <= fl,
            kept.deep_view() == folders_without(old_idx.folders.take(a as int), name@),
        decreases fl - a,
    {
        proof {
            assert(old_idx.folders.take(a + 1).drop_last() =~= old_idx.folders.take(a as int));
            assert(old_idx.folders.take(a + 1).last() == old_idx.folders[a as int]);
            assert(index.folders@[a as int]@ == old_idx.folders[a as int]);
        }
        if !str_eq_str(index.folders[a].as_str(), name) {
            kept.push(index.folders[a].clone());
        }
        a = a + 1;
        assert(kept.deep_view() =~= folders_without(old_idx.folders.take(a as int), name@));
    }
    proof {
        assert(old_idx.folders.take(fl as int) =~= old_idx.folders);
    }
    index.folders = kept;
    // Entries filed under the folder move to the root.
    let n = index.prompts.len();
    let mut i: usize = 0;
    while i < n
        invariant
            n == index.prompts@.len(),
            n == old_idx.prompts.len(),
            i <= n,
            index@.folders == folders_without(old_idx.folders, name@),
            index@.folder_meta == old_idx.folder_meta,
            index@.seeded == old_idx.seeded,
            forall|k: int|
                0 <= k < i ==> #[trigger] index@.prompts[k] == entry_folder_cleared(
                    old_idx.prompts[k],
                    name@,
                ),
            forall|k: int| i <= k < n ==> #[trigger] index@.prompts[k] == old_idx.prompts[k],
        decreases n - i,
    {
        proof {
            assert(index@.prompts[i as int] == old_idx.prompts[i as int]);
            assert(index.prompts@[i as int]@ == index@.prompts[i as int]);
        }
        if str_eq_str(index.prompts[i].folder.as_str(), name) {
            let ghost before = index@.prompts;
            let mut e = index.prompts[i].duplicate();
            e.folder = String::new();
            assert(e@ =~= entry_folder_cleared(old_idx.prompts[i as int], name@));
            index.prompts.set(i, e);
            proof {
                assert(forall|k: int|
                    0 <= k < n && k != i ==> #[trigger] index@.prompts[k] == before[k]);
                assert(index@.prompts[i as int] == e@);
            }
        } else {
            proof {
                assert(index@.prompts[i as int] == entry_folder_cleared(
                    old_idx.prompts[i as int],
                    name@,
                ));
            }
        }
        i = i + 1;
    }
    // Drop the decoration record.
    let ghost pm_snapshot = index@.prompts;
    let ghost fl_snapshot = index@.folders;
    let new_meta: Option<Vec<FolderMeta>> = match &index.folder_meta {
        None => None,
        Some(ms) => Some(remove_meta_list(ms, name)),
    };
    index.folder_meta = new_meta;
    proof {
        assert(index@.prompts == pm_snapshot);
        assert(index@.folders == fl_snapshot);
    }
    proof {
        assert(index@.folders == folders_without(old_idx.folders, name@));
        assert(forall|k: int|
            0 <= k < n ==> #[trigger] index@.prompts[k] == entry_folder_cleared(
                old_idx.prompts[k],
                name@,
            ));
    }
    Ok(())
}

/// The folder names that differ from a deleted folder's name, in order.
pub open spec fn folders_without(fs: Seq<Seq<char>>, n: Seq<char>) -> Seq<Seq<char>>
    decreases fs.len(),
{
    if fs.len() == 0 {
        fs
    } else {
        let rest = folders_without(fs.drop_last(), n);
        if fs.last() == n {
            rest
        } else {
            rest.push(fs.last())
        }
    }
}

/// Whether the scan addresses pairwise distinct files: no two results
/// share a `(folder, filename)` key.
pub open spec fn scan_keys_unique(sc: Seq<ScanEntryModel>) -> bool {
    forall|i: int, j: int|
        0 <= i < j < sc.len() ==> !(sc[i].folder == sc[j].folder && sc[i].filename
            == sc[j].filename)
}

/// An entry produced by reconciliation sits in its file's slot, and its
/// `updated` timestamp is the file's modification time when one is known.
proof fn lemma_sync_entry_keys(
    old_ps: Seq<PromptMetadataModel>,
    s: ScanEntryModel,
    now: Seq<char>,
    e: PromptMetadataModel,
)
    requires
        sync_entry_ok(old_ps, s, now, e),
    ensures
        e.folder == s.folder,
        e.filename == s.filename,
        s.modified is Some ==> e.updated == s.modified->0,
{
    if has_key(old_ps, s) {
        lemma_last_match(old_ps, s);
    }
}

/// When exactly one entry sits in a slot, [`last_match`] finds it.
proof fn lemma_last_match_unique(ps: Seq<PromptMetadataModel>, s: ScanEntryModel, k: int)
    requires
        0 <= k < ps.len(),
        key_matches(ps[k], s),
        forall|j: int| 0 <= j < ps.len() && j != k ==> !key_matches(ps[j], s),
    ensures
        last_match(ps, s) == k,
{
    lemma_last_match(ps, s);
}

/// After reconciliation of a scan of distinct files, the
/// `(folder, filename)` pairs of the index entries are pairwise distinct,
/// and every entry's non-empty folder appears in the folder list.
pub proof fn lemma_reconciled_index_well_formed(
    old_idx: PromptIndexModel,
    sc: Seq<ScanEntryModel>,
    now: Seq<char>,
    new_idx: PromptIndexModel,
    changed: bool,
)
    requires
        sync_post(old_idx, sc, now, new_idx, changed),
        scan_keys_unique(sc),
    ensures
        forall|i: int, j: int|
            0 <= i < j < new_idx.prompts.len() ==> !(new_idx.prompts[i].folder
                == new_idx.prompts[j].folder && new_idx.prompts[i].filename
                == new_idx.prompts[j].filename),
        forall|i: int|
            0 <= i < new_idx.prompts.len() && #[trigger] new_idx.prompts[i].folder.len() > 0
                ==> new_idx.folders.contains(new_idx.prompts[i].folder),
{
    assert forall|i: int| 0 <= i < sc.len() implies #[trigger] new_idx.prompts[i].folder
        == sc[i].folder && new_idx.prompts[i].filename == sc[i].filename by {
        lemma_sync_entry_keys(old_idx.prompts, sc[i], now, new_idx.prompts[i]);
    }
    lemma_dedup_first(old_idx.folders);
    lemma_folders_plus_discovered(dedup_first(old_idx.folders), sc);
    assert forall|i: int|
        0 <= i < new_idx.prompts.len() && #[trigger] new_idx.prompts[i].folder.len() > 0
        implies new_idx.folders.contains(new_idx.prompts[i].folder) by {
        let f = new_idx.prompts[i].folder;
        assert(sc[i].folder == f && f.len() > 0);
        assert(exists|k: int| 0 <= k < sc.len() && sc[k].folder == f && f.len() > 0);
        assert(folders_plus_discovered(dedup_first(old_idx.folders), sc).contains(f));
    }
}

/// Reconciliation is idempotent: an index that reconciliation just
/// produced reports no change when reconciled again against the same
/// scan.  In particular a second load over an unchanged tree writes
/// nothing.
pub proof fn lemma_sync_idempotent(
    old_idx: PromptIndexModel,
    sc: Seq<ScanEntryModel>,
    now: Seq<char>,
    new_idx: PromptIndexModel,
    changed: bool,
)
    requires
        sync_post(old_idx, sc, now, new_idx, changed),
        scan_keys_unique(sc),
    ensures
        !sync_changed(new_idx.prompts, new_idx.folders, sc),
{
    let ps = new_idx.prompts;
    assert forall|i: int| 0 <= i < sc.len() implies #[trigger] ps[i].folder == sc[i].folder
        && ps[i].filename == sc[i].filename && (sc[i].modified is Some ==> ps[i].updated
        == sc[i].modified->0) by {
        lemma_sync_entry_keys(old_idx.prompts, sc[i], now, ps[i]);
    }
    // Every slot is occupied by exactly its own entry, so every entry is
    // found, kept, and already carries its file's timestamp.
    assert forall|j: int| 0 <= j < ps.len() implies has_key(ps, sc[j]) && #[trigger] last_match(
        ps,
        sc[j],
    ) == j && consumed(ps, sc, j) by {
        assert(key_matches(ps[j], sc[j]));
        assert forall|j2: int| 0 <= j2 < ps.len() && j2 != j implies !key_matches(
            ps[j2],
            sc[j],
        ) by {
            if key_matches(ps[j2], sc[j]) {
                assert(sc[j2].folder == sc[j].folder && sc[j2].filename == sc[j].filename);
                if j2 < j {
                    assert(!(sc[j2].folder == sc[j].folder && sc[j2].filename == sc[j].filename));
                } else {
                    assert(!(sc[j].folder == sc[j2].folder && sc[j].filename == sc[j2].filename));
                }
            }
        }
        lemma_last_match_unique(ps, sc[j], j);
        assert(0 <= j < sc.len() && has_key(ps, sc[j]) && last_match(ps, sc[j]) == j);
        assert(consumed(ps, sc, j));
    }
    // The folder list already lists every folder in use, without
    // duplicates.
    lemma_dedup_first(old_idx.folders);
    lemma_folders_plus_discovered(dedup_first(old_idx.folders), sc);
    assert(folders_nodup(new_idx.folders));
    assert forall|i: int|
        0 <= i < sc.len() && #[trigger] sc[i].folder.len() > 0 implies new_idx.folders.contains(
        sc[i].folder,
    ) by {
        let f = sc[i].folder;
        assert(exists|k: int| 0 <= k < sc.len() && sc[k].folder == f && f.len() > 0);
        assert(folders_plus_discovered(dedup_first(old_idx.folders), sc).contains(f));
    }
    // Each way of reporting a change is ruled out in turn.
    assert(!(exists|i: int| 0 <= i < sc.len() && !has_key(ps, sc[i]))) by {
        if exists|i: int| 0 <= i < sc.len() && !has_key(ps, sc[i]) {
            let i = choose|i: int| 0 <= i < sc.len() && !has_key(ps, sc[i]);
            assert(last_match(ps, sc[i]) == i);
        }
    }
    assert(!(exists|i: int|
        0 <= i < sc.len() && has_key(ps, sc[i]) && sc[i].modified is Some && ps[last_match(
            ps,
            sc[i],
        )].updated != sc[i].modified->0)) by {
        if exists|i: int|
            0 <= i < sc.len() && has_key(ps, sc[i]) && sc[i].modified is Some && ps[last_match(
                ps,
                sc[i],
            )].updated != sc[i].modified->0 {
            let i = choose|i: int|
                0 <= i < sc.len() && has_key(ps, sc[i]) && sc[i].modified is Some && ps[
                    last_match(ps, sc[i])].updated != sc[i].modified->0;
            assert(last_match(ps, sc[i]) == i);
            assert(ps[i].updated == sc[i].modified->0);
        }
    }
    assert(!(exists|j: int| 0 <= j < ps.len() && !consumed(ps, sc, j))) by {
        if exists|j: int| 0 <= j < ps.len() && !consumed(ps, sc, j) {
            let j = choose|j: int| 0 <= j < ps.len() && !consumed(ps, sc, j);
            assert(last_match(ps, sc[j]) == j);
        }
    }
    assert(!(exists|i: int|
        0 <= i < sc.len() && sc[i].folder.len() > 0 && !new_idx.folders.contains(
            sc[i].folder,
        ))) by {
        if exists|i: int|
            0 <= i < sc.len() && sc[i].folder.len() > 0 && !new_idx.folders.contains(
                sc[i].folder,
            ) {
            let i = choose|i: int|
                0 <= i < sc.len() && sc[i].folder.len() > 0 && !new_idx.folders.contains(
                    sc[i].folder,
                );
            assert(new_idx.folders.contains(sc[i].folder));
        }
    }
    assert(!sync_changed(ps, new_idx.folders, sc));
}

/// With no change to report, reconciliation is deterministic: no entry is
/// synthesized, so any two outcomes of reconciling the same index against
/// the same scan hold the same content.  Loading twice over an unchanged
/// tree therefore yields identical indexes.
pub proof fn lemma_unchanged_sync_deterministic(
    old_idx: PromptIndexModel,
    sc: Seq<ScanEntryModel>,
    now: Seq<char>,
    r1: PromptIndexModel,
    r2: PromptIndexModel,
)
    requires
        sync_post(old_idx, sc, now, r1, false),
        sync_post(old_idx, sc, now, r2, false),
    ensures
        r1.prompts == r2.prompts,
        r1.folders == r2.folders,
        r1.folder_meta == r2.folder_meta,
        r1.seeded == r2.seeded,
{
    assert forall|i: int| 0 <= i < sc.len() implies #[trigger] r1.prompts[i]
        == r2.prompts[i] by {
        assert(has_key(old_idx.prompts, sc[i]));
    }
    assert(r1.prompts =~= r2.prompts);
}

/// Directory components joined with `/` into a logical folder path.
pub open spec fn joined_path(parts: Seq<Seq<char>>) -> Seq<char>
    decreases parts.len(),
{
    if parts.len() == 0 {
        Seq::empty()
    } else if parts.len() == 1 {
        parts[0]
    } else {
        joined_path(parts.drop_last()) + "/"@ + parts.last()
    }
}

/// Computes [`joined_path`].
pub fn normalize_folder(components: &Vec<String>) -> (r: String)
    ensures
        r@ == joined_path(components.deep_view()),
{
    let n = components.len();
    let mut r = String::new();
    let mut i: usize = 0;
    while i < n
        invariant
            n == components@.len(),
            i <= n,
            r@ == joined_path(components.deep_view().take(i as int)),
        decreases n - i,
    {
        proof {
            assert(components.deep_view().take(i + 1).drop_last() =~= components.deep_view().take(
                i as int,
            ));
            assert(components.deep_view().take(i + 1).last() == components.deep_view()[i as int]);
            assert(components@[i as int]@ == components.deep_view()[i as int]);
        }
        if i > 0 {
            r.append("/");
        }
        r.append(components[i].as_str());
        i = i + 1;
        assert(r@ =~= joined_path(components.deep_view().take(i as int)));
    }
    proof {
        assert(components.deep_view().take(n as int) =~= components.deep_view());
    }
    r
}

/// Whether a file name carries the recognized document extension,
/// compared without regard to ASCII case: the part after the last dot is
/// `md`, and the dot neither leads the name nor is missing.
pub open spec fn has_md_extension(s: Seq<char>) -> bool {
    last_dot(s) > 0 && crate::prompt_service::ci_eq(s.skip(last_dot(s) + 1), "md"@)
}

/// Decides [`has_md_extension`].
pub fn has_markdown_extension(filename: &str) -> (r: bool)
    ensures
        r == has_md_extension(filename@),
{
    let cs = chars_vec(filename);
    let n = cs.len();
    proof {
        lemma_last_dot(cs@);
    }
    let mut dot: usize = 0;
    let mut has_dot = false;
    let mut i: usize = 0;
    while i < n
        invariant
            n == cs@.len(),
            cs@ == filename@,
            i <= n,
            !has_dot ==> forall|j: int| 0 <= j < i ==> cs@[j] != '.',
            has_dot ==> dot < i && cs@[dot as int] == '.' && forall|j: int|
                dot < j < i ==> cs@[j] != '.',
        decreases n - i,
    {
        if cs[i] == '.' {
            dot = i;
            has_dot = true;
        }
        i = i + 1;
    }
    assert(has_dot ==> last_dot(cs@) == dot);
    assert(!has_dot ==> last_dot(cs@) == -1);
    if !has_dot || dot == 0 {
        return false;
    }
    // The extension: everything after the last dot.
    let mut ext: Vec<char> = Vec::new();
    let mut k: usize = dot + 1;
    while k < n
        invariant
            n == cs@.len(),
            cs@ == filename@,
            dot + 1 <= k <= n,
            ext@ == cs@.subrange(dot + 1, k as int),
        decreases n - k,
    {
        ext.push(cs[k]);
        k = k + 1;
        assert(ext@ =~= cs@.subrange(dot + 1, k as int));
    }
    proof {
        assert(cs@.subrange(dot + 1, n as int) =~= cs@.skip(dot + 1));
    }
    crate::prompt_service::eq_ci_chars(&ext, "md")
}

/// The scan order: discovered files compare by their slash-joined
/// `folder/filename` key, lexicographically.
pub open spec fn scan_le(a: ScanEntryModel, b: ScanEntryModel) -> bool {
    lex_le(a.folder + "/"@ + a.filename, b.folder + "/"@ + b.filename)
}

impl ScanEntry {
    /// Copies a scan result; the copy has the same view.
    pub fn duplicate(&self) -> (r: Self)
        ensures
            r@ == self@,
    {
        let r = ScanEntry {
            folder: self.folder.clone(),
            filename: self.filename.clone(),
            modified: crate::model::clone_opt_string(&self.modified),
        };
        assert(r@ =~= self@);
        r
    }
}

/// Decides [`scan_le`].
fn scan_le_exec(a: &ScanEntry, b: &ScanEntry) -> (r: bool)
    ensures
        r == scan_le(a@, b@),
{
    let a_key = a.folder.clone().concat("/").concat(a.filename.as_str());
    let b_key = b.folder.clone().concat("/").concat(b.filename.as_str());
    assert(a_key@ =~= a@.folder + "/"@ + a@.filename);
    assert(b_key@ =~= b@.folder + "/"@ + b@.filename);
    str_le(a_key.as_str(), b_key.as_str())
}

/// Orders scan results by their `(folder, filename)` key, so that
/// everything downstream of the scanner is deterministic.
pub fn sort_scan(files: &Vec<ScanEntry>) -> (r: Vec<ScanEntry>)
    ensures
        scans_of(r@).to_multiset() == scans_of(files@).to_multiset(),
        forall|i: int, j: int|
            0 <= i < j < r@.len() ==> scan_le(#[trigger] scans_of(r@)[i], #[trigger] scans_of(
                r@,
            )[j]),
{
    broadcast use vstd::seq_lib::group_to_multiset_ensures;

    let ghost fs = scans_of(files@);
    let n = files.len();
    let mut sorted: Vec<ScanEntry> = Vec::new();
    let mut i: usize = 0;
    while i < n
        invariant
            n == files@.len(),
            fs == scans_of(files@),
            i <= n,
            scans_of(sorted@).to_multiset() == scans_of(files@).take(i as int).to_multiset(),
            forall|a: int, b: int|
                0 <= a < b < sorted@.len() ==> scan_le(
                    #[trigger] scans_of(sorted@)[a],
                    #[trigger] scans_of(sorted@)[b],
                ),
        decreases n - i,
    {
        let item = files[i].duplicate();
        let ghost im = item@;
        let mut pos: usize = 0;
        while pos < sorted.len() && scan_le_exec(&sorted[pos], &item)
            invariant
                pos <= sorted@.len(),
                im == item@,
                forall|k: int| 0 <= k < pos ==> scan_le(#[trigger] scans_of(sorted@)[k], im),
            decreases sorted@.len() - pos,
        {
            proof {
                assert(scans_of(sorted@)[pos as int] == sorted@[pos as int]@);
            }
            pos = pos + 1;
        }
        proof {
            if pos < sorted@.len() {
                assert(scans_of(sorted@)[pos as int] == sorted@[pos as int]@);
            }
        }
        let ghost before = sorted@;
        sorted.insert(pos, item);
        proof {
            assert(scans_of(sorted@) =~= scans_of(before).insert(pos as int, im));
            vstd::seq_lib::to_multiset_insert(scans_of(before), pos as int, im);
            let pre = scans_of(files@).take(i as int);
            assert(scans_of(files@).take(i + 1) =~= pre.push(im));
            vstd::seq_lib::to_multiset_build(pre, im);
            assert(scans_of(files@).take(i + 1).to_multiset() == pre.to_multiset().insert(im));
            if pos < before.len() {
                assert(!scan_le(scans_of(before)[pos as int], im));
                lemma_lex_le_total(
                    scans_of(before)[pos as int].folder + "/"@ + scans_of(
                        before,
                    )[pos as int].filename,
                    im.folder + "/"@ + im.filename,
                );
            }
            assert forall|a: int, b: int|
                0 <= a < b < sorted@.len() implies scan_le(
                #[trigger] scans_of(sorted@)[a],
                #[trigger] scans_of(sorted@)[b],
            ) by {
                let cur = scans_of(sorted@);
                let old_s = scans_of(before);
                if b < pos {
                } else if a < pos && b == pos {
                } else if a < pos && b > pos {
                    assert(cur[b] == old_s[b - 1]);
                    if pos < old_s.len() {
                        lemma_lex_le_trans(
                            cur[a].folder + "/"@ + cur[a].filename,
                            im.folder + "/"@ + im.filename,
                            old_s[pos as int].folder + "/"@ + old_s[pos as int].filename,
                        );
                        if b - 1 > pos {
                            lemma_lex_le_trans(
                                cur[a].folder + "/"@ + cur[a].filename,
                                old_s[pos as int].folder + "/"@ + old_s[pos as int].filename,
                                old_s[b - 1].folder + "/"@ + old_s[b - 1].filename,
                            );
                        }
                    }
                } else if a == pos && b > pos {
                    assert(cur[b] == old_s[b - 1]);
                    if pos < old_s.len() && b - 1 > pos {
                        lemma_lex_le_trans(
                            im.folder + "/"@ + im.filename,
                            old_s[pos as int].folder + "/"@ + old_s[pos as int].filename,
                            old_s[b - 1].folder + "/"@ + old_s[b - 1].filename,
                        );
                    }
                } else {
                    assert(cur[a] == old_s[a - 1] && cur[b] == old_s[b - 1]);
                }
            }
        }
        i = i + 1;
    }
    proof {
        assert(scans_of(files@).take(n as int) =~= scans_of(files@));
    }
    sorted
}

/// The index-level folder rename cascades the same way: afterwards no
/// entry is filed under the old name, every entry that was is filed
/// under the new name (timestamps untouched at this level), and every
/// other entry is left exactly as it was.
pub proof fn lemma_rename_folder_cascade(
    old_ps: Seq<PromptMetadataModel>,
    new_ps: Seq<PromptMetadataModel>,
    o: Seq<char>,
    n: Seq<char>,
)
    requires
        o != n,
        new_ps.len() == old_ps.len(),
        forall|i: int|
            0 <= i < old_ps.len() ==> #[trigger] new_ps[i] == entry_folder_renamed(old_ps[i], o, n),
    ensures
        forall|i: int| 0 <= i < new_ps.len() ==> (#[trigger] new_ps[i]).folder != o,
        forall|i: int|
            0 <= i < old_ps.len() && (#[trigger] old_ps[i]).folder == o ==> new_ps[i].folder == n,
        forall|i: int|
            0 <= i < old_ps.len() && (#[trigger] old_ps[i]).folder != o ==> new_ps[i] == old_ps[i],
{
}

} // verus!
