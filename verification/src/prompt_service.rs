//! Per-document operations against the index: path computation, filename
//! sanitizing and uniqueness, create/update/delete of entries, usage
//! recording, and the folder operations that cascade across entries.

use vstd::prelude::*;

use crate::ids::new_id;
use crate::model::{
    metas_of, FolderMeta, PromptIndex, PromptMetadata, PromptMetadataModel,
};
use crate::index_service::{
    first_index, folders_without, lemma_first_index, meta_rename, metas_without,
    remove_meta_list, rename_meta_list,
};
use crate::storage::StoragePaths;
use crate::strutil::{ascii_lower_of, ascii_lower_u32, chars_vec, is_control, is_control_char,
    str_eq_str, string_from_chars, vec_contains_str};
use crate::AppResult;

verus! {

/// The root-relative path of a document's file, with `/` separating the
/// directory components; an empty folder means the documents root itself.
pub fn get_prompt_path(paths: &StoragePaths, folder: &str, filename: &str) -> (r: String)
    ensures
        folder@.len() == 0 ==> r@ == paths.prompts_dir@ + "/"@ + filename@,
        folder@.len() > 0 ==> r@ == paths.prompts_dir@ + "/"@ + folder@ + "/"@ + filename@,
{
    let mut r = paths.prompts_dir.clone();
    r.append("/");
    if !folder.is_empty() {
        r.append(folder);
        r.append("/");
        r.append(filename);
        assert(r@ =~= paths.prompts_dir@ + "/"@ + folder@ + "/"@ + filename@);
    } else {
        r.append(filename);
        assert(r@ =~= paths.prompts_dir@ + "/"@ + filename@);
    }
    r
}

/// The characters common filesystems refuse in a file name.
pub open spec fn is_illegal_filename_char(c: char) -> bool {
    c == '<' || c == '>' || c == ':' || c == '"' || c == '/' || c == '\\' || c == '|' || c == '?'
        || c == '*'
}

/// Decides [`is_illegal_filename_char`].
fn illegal_filename_char(c: char) -> (r: bool)
    ensures
        r == is_illegal_filename_char(c),
{
    c == '<' || c == '>' || c == ':' || c == '"' || c == '/' || c == '\\' || c == '|' || c == '?'
        || c == '*'
}

/// The input with illegal and control characters removed.
pub open spec fn kept_chars(s: Seq<char>) -> Seq<char>
    decreases s.len(),
{
    if s.len() == 0 {
        s
    } else {
        let rest = kept_chars(s.drop_last());
        if is_illegal_filename_char(s.last()) || is_control(s.last()) {
            rest
        } else {
            rest.push(s.last())
        }
    }
}

/// The input with trailing dots and spaces removed.
pub open spec fn trimmed_tail(s: Seq<char>) -> Seq<char>
    decreases s.len(),
{
    if s.len() > 0 && (s.last() == '.' || s.last() == ' ') {
        trimmed_tail(s.drop_last())
    } else {
        s
    }
}

/// The index of the first `.`, or `-1` when there is none.
pub open spec fn first_dot(s: Seq<char>) -> int
    decreases s.len(),
{
    if s.len() == 0 {
        -1
    } else if s[0] == '.' {
        0
    } else {
        let r = first_dot(s.drop_first());
        if r == -1 {
            -1
        } else {
            r + 1
        }
    }
}

/// Everything before the first `.`, or the whole name without one.
pub open spec fn before_first_dot(s: Seq<char>) -> Seq<char> {
    if first_dot(s) == -1 {
        s
    } else {
        s.take(first_dot(s))
    }
}

/// Character-wise equality up to ASCII case.
pub open spec fn ci_eq(a: Seq<char>, b: Seq<char>) -> bool {
    a.len() == b.len() && forall|i: int|
        0 <= i < a.len() ==> ascii_lower_u32(a[i]) == ascii_lower_u32(b[i])
}

/// Decides [`ci_eq`] against a literal.
pub(crate) fn eq_ci_chars(a: &Vec<char>, b: &str) -> (r: bool)
    ensures
        r == ci_eq(a@, b@),
{
    let bs = chars_vec(b);
    if a.len() != bs.len() {
        return false;
    }
    let n = a.len();
    let mut i: usize = 0;
    while i < n
        invariant
            n == a@.len(),
            n == bs@.len(),
            bs@ == b@,
            i <= n,
            forall|j: int| 0 <= j < i ==> ascii_lower_u32(a@[j]) == ascii_lower_u32(b@[j]),
        decreases n - i,
    {
        if ascii_lower_of(a[i]) != ascii_lower_of(bs[i]) {
            return false;
        }
        i = i + 1;
    }
    true
}

/// The device names that common filesystems reserve, compared without
/// regard to ASCII case.
pub open spec fn is_reserved_name(s: Seq<char>) -> bool {
    ||| ci_eq(s, "CON"@)
    ||| ci_eq(s, "PRN"@)
    ||| ci_eq(s, "AUX"@)
    ||| ci_eq(s, "NUL"@)
    ||| ci_eq(s, "COM1"@)
    ||| ci_eq(s, "COM2"@)
    ||| ci_eq(s, "COM3"@)
    ||| ci_eq(s, "COM4"@)
    ||| ci_eq(s, "COM5"@)
    ||| ci_eq(s, "COM6"@)
    ||| ci_eq(s, "COM7"@)
    ||| ci_eq(s, "COM8"@)
    ||| ci_eq(s, "COM9"@)
    ||| ci_eq(s, "LPT1"@)
    ||| ci_eq(s, "LPT2"@)
    ||| ci_eq(s, "LPT3"@)
    ||| ci_eq(s, "LPT4"@)
    ||| ci_eq(s, "LPT5"@)
    ||| ci_eq(s, "LPT6"@)
    ||| ci_eq(s, "LPT7"@)
    ||| ci_eq(s, "LPT8"@)
    ||| ci_eq(s, "LPT9"@)
}

/// Decides [`is_reserved_name`].
fn reserved_name(s: &Vec<char>) -> (r: bool)
    ensures
        r == is_reserved_name(s@),
{
    eq_ci_chars(s, "CON") || eq_ci_chars(s, "PRN") || eq_ci_chars(s, "AUX") || eq_ci_chars(s, "NUL")
        || eq_ci_chars(s, "COM1") || eq_ci_chars(s, "COM2") || eq_ci_chars(s, "COM3") || eq_ci_chars(
        s,
        "COM4",
    ) || eq_ci_chars(s, "COM5") || eq_ci_chars(s, "COM6") || eq_ci_chars(s, "COM7") || eq_ci_chars(
        s,
        "COM8",
    ) || eq_ci_chars(s, "COM9") || eq_ci_chars(s, "LPT1") || eq_ci_chars(s, "LPT2") || eq_ci_chars(
        s,
        "LPT3",
    ) || eq_ci_chars(s, "LPT4") || eq_ci_chars(s, "LPT5") || eq_ci_chars(s, "LPT6") || eq_ci_chars(
        s,
        "LPT7",
    ) || eq_ci_chars(s, "LPT8") || eq_ci_chars(s, "LPT9")
}

/// A display name turned into a safe file name component: illegal and
/// control characters are dropped, trailing dots and spaces stripped, an
/// empty result falls back to a generic name, a reserved device name is
/// defused with a leading underscore, and the result is capped at 200
/// characters.
pub open spec fn sanitized_of(s: Seq<char>) -> Seq<char> {
    let base = trimmed_tail(kept_chars(s));
    if base.len() == 0 {
        "untitled"@
    } else {
        let pre = if is_reserved_name(before_first_dot(base)) {
            seq!['_'] + base
        } else {
            base
        };
        if pre.len() > 200 {
            pre.take(200)
        } else {
            pre
        }
    }
}

/// Computes [`sanitized_of`].
pub fn sanitize_filename(input: &str) -> (r: String)
    ensures
        r@ == sanitized_of(input@),
{
    let cs = chars_vec(input);
    let n = cs.len();
    // Drop characters a filesystem would refuse.
    let mut out: Vec<char> = Vec::new();
    let mut i: usize = 0;
    while i < n
        invariant
            n == cs@.len(),
            cs@ == input@,
            i <= n,
            out@ == kept_chars(cs@.take(i as int)),
        decreases n - i,
    {
        proof {
            assert(cs@.take(i + 1).drop_last() =~= cs@.take(i as int));
            assert(cs@.take(i + 1).last() == cs@[i as int]);
        }
        let c = cs[i];
        if !illegal_filename_char(c) && !is_control_char(c) {
            out.push(c);
        }
        i = i + 1;
        assert(out@ =~= kept_chars(cs@.take(i as int)));
    }
    proof {
        assert(cs@.take(n as int) =~= cs@);
    }
    // Strip trailing dots and spaces.
    while out.len() > 0 && (out[out.len() - 1] == '.' || out[out.len() - 1] == ' ')
        invariant
            trimmed_tail(out@) == trimmed_tail(kept_chars(input@)),
        decreases out@.len(),
    {
        out.pop();
    }
    let ghost base = trimmed_tail(kept_chars(input@));
    assert(out@ == base);
    if out.len() == 0 {
        return String::from_str("untitled");
    }
    // A reserved device name (judged by the part before the first dot)
    // gets a defusing underscore.
    let mut fd: usize = 0;
    let mut has_fd = false;
    let m = out.len();
    let mut scan: usize = 0;
    while scan < m
        invariant
            m == out@.len(),
            scan <= m,
            !has_fd ==> forall|j: int| 0 <= j < scan ==> out@[j] != '.',
            has_fd ==> fd < scan && out@[fd as int] == '.' && forall|j: int|
                0 <= j < fd ==> out@[j] != '.',
        decreases m - scan,
    {
        if out[scan] == '.' && !has_fd {
            fd = scan;
            has_fd = true;
        }
        scan = scan + 1;
    }
    proof {
        lemma_first_dot_char(out@);
        if has_fd {
            assert(first_dot(out@) == fd);
        } else {
            assert(first_dot(out@) == -1);
        }
    }
    let stem_len: usize = if has_fd {
        fd
    } else {
        m
    };
    let mut stem: Vec<char> = Vec::new();
    let mut k: usize = 0;
    while k < stem_len
        invariant
            stem_len <= out@.len(),
            k <= stem_len,
            stem@ == out@.take(k as int),
        decreases stem_len - k,
    {
        stem.push(out[k]);
        k = k + 1;
        assert(stem@ =~= out@.take(k as int));
    }
    assert(stem@ == before_first_dot(base)) by {
        if !has_fd {
            assert(out@.take(m as int) =~= out@);
        }
    }
    if reserved_name(&stem) {
        out.insert(0, '_');
        assert(out@ =~= seq!['_'] + base);
    }
    if out.len() > 200 {
        out.truncate(200);
    }
    string_from_chars(&out)
}

/// What [`first_dot`] returns: the least index of a dot, or `-1` exactly
/// when there is none.
proof fn lemma_first_dot_char(s: Seq<char>)
    ensures
        -1 <= first_dot(s) < s.len(),
        first_dot(s) >= 0 ==> s[first_dot(s)] == '.',
        forall|k: int| 0 <= k < first_dot(s) ==> s[k] != '.',
        first_dot(s) == -1 ==> forall|k: int| 0 <= k < s.len() ==> s[k] != '.',
    decreases s.len(),
{
    if s.len() > 0 && s[0] != '.' {
        lemma_first_dot_char(s.drop_first());
        assert(forall|j: int| 0 <= j < s.len() - 1 ==> s.drop_first()[j] == s[j + 1]);
        assert forall|k: int| 0 <= k < first_dot(s) implies s[k] != '.' by {
            if k > 0 {
                assert(s.drop_first()[k - 1] != '.');
            }
        }
        if first_dot(s) == -1 {
            assert forall|k: int| 0 <= k < s.len() implies s[k] != '.' by {
                if k > 0 {
                    assert(s.drop_first()[k - 1] != '.');
                }
            }
        }
    }
}

/// The decimal digit characters.
pub open spec fn digit_of(d: int) -> char {
    if d == 0 { '0' } else if d == 1 { '1' } else if d == 2 { '2' } else if d == 3 { '3' }
    else if d == 4 { '4' } else if d == 5 { '5' } else if d == 6 { '6' } else if d == 7 { '7' }
    else if d == 8 { '8' } else { '9' }
}

fn digit_char(d: usize) -> (r: char)
    requires
        d < 10,
    ensures
        r == digit_of(d as int),
{
    if d == 0 { '0' } else if d == 1 { '1' } else if d == 2 { '2' } else if d == 3 { '3' }
    else if d == 4 { '4' } else if d == 5 { '5' } else if d == 6 { '6' } else if d == 7 { '7' }
    else if d == 8 { '8' } else { '9' }
}

/// A number below one thousand in decimal digits.
pub open spec fn dec_of(n: int) -> Seq<char> {
    if n < 10 {
        seq![digit_of(n)]
    } else if n < 100 {
        seq![digit_of(n / 10), digit_of(n % 10)]
    } else {
        seq![digit_of(n / 100), digit_of((n / 10) % 10), digit_of(n % 10)]
    }
}

fn dec_str(n: usize) -> (r: String)
    requires
        n < 1000,
    ensures
        r@ == dec_of(n as int),
{
    let mut ds: Vec<char> = Vec::new();
    if n < 10 {
        ds.push(digit_char(n));
        assert(ds@ =~= dec_of(n as int));
    } else if n < 100 {
        ds.push(digit_char(n / 10));
        ds.push(digit_char(n % 10));
        assert(ds@ =~= dec_of(n as int));
    } else {
        ds.push(digit_char(n / 100));
        ds.push(digit_char((n / 10) % 10));
        ds.push(digit_char(n % 10));
        assert(ds@ =~= dec_of(n as int));
    }
    string_from_chars(&ds)
}

/// The numbered fallback candidate for a sanitized base name.
pub open spec fn numbered_candidate(s: Seq<char>, i: int) -> Seq<char> {
    s + "-"@ + dec_of(i) + ".md"@
}

/// What the unique-name algorithm yields for a taken-set and a display
/// name: the sanitized name with the document extension when free, else
/// the first free numbered variant, else — with the name and every
/// numbered variant taken — a variant carrying a fresh 36-character
/// identifier.  In the first two cases the result avoids `taken`; the
/// exhausted case carries no such promise, since nothing can be promised
/// of a random identifier.
pub open spec fn unique_choice_ok(taken: Seq<Seq<char>>, base: Seq<char>, r: Seq<char>) -> bool {
    let s = sanitized_of(base);
    &&& (!taken.contains(s + ".md"@) ==> r == s + ".md"@)
    &&& (taken.contains(s + ".md"@) && (exists|i: int|
        1 <= i < 1000 && !taken.contains(numbered_candidate(s, i))) ==> exists|i: int|
        {
            &&& 1 <= i < 1000
            &&& r == numbered_candidate(s, i)
            &&& !taken.contains(r)
            &&& forall|j: int| 1 <= j < i ==> taken.contains(numbered_candidate(s, j))
        })
    &&& (taken.contains(s + ".md"@) && !(exists|i: int|
        1 <= i < 1000 && !taken.contains(numbered_candidate(s, i))) ==> exists|u: Seq<char>|
        u.len() == 36 && r == s + "-"@ + u + ".md"@)
}

/// A file name for a new document that no existing file name in `taken`
/// collides with: the sanitized display name with the document extension,
/// or the first free numbered variant, or, with a thousand taken, a
/// variant carrying a fresh identifier.
pub fn ensure_unique_filename(taken: &Vec<String>, base: &str) -> (r: String)
    ensures
        unique_choice_ok(taken.deep_view(), base@, r@),
{
    let sanitized = sanitize_filename(base);
    let ghost s = sanitized_of(base@);
    let md = sanitized.clone().concat(".md");
    assert(md@ =~= s + ".md"@);
    if !vec_contains_str(taken, md.as_str()) {
        return md;
    }
    let mut i: usize = 1;
    while i < 1000
        invariant
            1 <= i <= 1000,
            sanitized@ == s,
            s == sanitized_of(base@),
            taken.deep_view().contains(s + ".md"@),
            forall|j: int|
                1 <= j < i ==> taken.deep_view().contains(#[trigger] numbered_candidate(s, j)),
        decreases 1000 - i,
    {
        let cand = sanitized.clone().concat("-").concat(dec_str(i).as_str()).concat(".md");
        assert(cand@ =~= numbered_candidate(s, i as int));
        if !vec_contains_str(taken, cand.as_str()) {
            return cand;
        }
        i = i + 1;
    }
    // Every numbered variant is taken; fall back to a fresh identifier.
    let u = new_id();
    let r = sanitized.clone().concat("-").concat(u.as_str()).concat(".md");
    assert(r@ =~= s + "-"@ + u@ + ".md"@);
    r
}

/// The least index of the entry carrying an identifier, or `-1`.
pub open spec fn first_id_index(ps: Seq<PromptMetadataModel>, id: Seq<char>) -> int
    decreases ps.len(),
{
    if ps.len() == 0 {
        -1
    } else if ps[0].id == id {
        0
    } else {
        let r = first_id_index(ps.drop_first(), id);
        if r == -1 {
            -1
        } else {
            r + 1
        }
    }
}

/// What [`first_id_index`] returns: the least matching index, or `-1`
/// exactly when no entry carries the identifier.
pub proof fn lemma_first_id_index(ps: Seq<PromptMetadataModel>, id: Seq<char>)
    ensures
        -1 <= first_id_index(ps, id) < ps.len(),
        first_id_index(ps, id) >= 0 ==> ps[first_id_index(ps, id)].id == id,
        forall|k: int| 0 <= k < first_id_index(ps, id) ==> ps[k].id != id,
        first_id_index(ps, id) == -1 ==> forall|k: int| 0 <= k < ps.len() ==> ps[k].id != id,
    decreases ps.len(),
{
    if ps.len() > 0 && ps[0].id != id {
        lemma_first_id_index(ps.drop_first(), id);
        assert(forall|j: int| 0 <= j < ps.len() - 1 ==> ps.drop_first()[j] == ps[j + 1]);
        assert forall|k: int| 0 <= k < first_id_index(ps, id) implies ps[k].id != id by {
            if k > 0 {
                assert(ps.drop_first()[k - 1].id != id);
            }
        }
        if first_id_index(ps, id) == -1 {
            assert forall|k: int| 0 <= k < ps.len() implies ps[k].id != id by {
                if k > 0 {
                    assert(ps.drop_first()[k - 1].id != id);
                }
            }
        }
    }
}

/// Finds the first entry carrying an identifier.
pub fn find_by_id(index: &PromptIndex, id: &str) -> (r: Option<usize>)
    ensures
        match r {
            Some(p) => p < index@.prompts.len() && p == first_id_index(index@.prompts, id@),
            None => first_id_index(index@.prompts, id@) == -1,
        },
{
    proof {
        lemma_first_id_index(index@.prompts, id@);
    }
    let ghost ps = index@.prompts;
    let n = index.prompts.len();
    let mut i: usize = 0;
    while i < n
        invariant
            ps == index@.prompts,
            n == index.prompts@.len(),
            i <= n,
            forall|k: int| 0 <= k < i ==> ps[k].id != id@,
        decreases n - i,
    {
        if str_eq_str(index.prompts[i].id.as_str(), id) {
            proof {
                lemma_first_id_index(ps, id@);
                assert(ps[i as int].id == id@);
            }
            return Some(i);
        }
        assert(ps[i as int].id != id@);
        i = i + 1;
    }
    None
}

/// How a save request is carried out: refresh an existing entry, moving
/// its file when the folder changed, or create a new entry.
pub enum SavePlan {
    Update { pos: usize, move_folder: bool },
    Create,
}

/// Decides between update and create: a request whose identifier matches
/// an existing entry updates that entry, anything else creates.
pub fn plan_save(index: &PromptIndex, meta: &PromptMetadata) -> (r: SavePlan)
    ensures
        match r {
            SavePlan::Update { pos, move_folder } => {
                &&& pos < index@.prompts.len()
                &&& pos == first_id_index(index@.prompts, meta.id@)
                &&& move_folder == (index@.prompts[pos as int].folder != meta.folder@)
            },
            SavePlan::Create => first_id_index(index@.prompts, meta.id@) == -1,
        },
{
    match find_by_id(index, meta.id.as_str()) {
        Some(pos) => {
            let move_folder = !str_eq_str(
                index.prompts[pos].folder.as_str(),
                meta.folder.as_str(),
            );
            SavePlan::Update { pos, move_folder }
        },
        None => SavePlan::Create,
    }
}

/// An updated entry: the caller's name, folder, description and
/// decorations, a fresh `updated` timestamp, the stored file name unless
/// the file moved, and everything else kept.
pub open spec fn updated_entry(
    e: PromptMetadataModel,
    m: PromptMetadataModel,
    new_filename: Option<Seq<char>>,
    now: Seq<char>,
) -> PromptMetadataModel {
    PromptMetadataModel {
        name: m.name,
        folder: m.folder,
        description: m.description,
        icon: m.icon,
        color: m.color,
        updated: now,
        filename: match new_filename {
            Some(f) => f,
            None => e.filename,
        },
        ..e
    }
}

/// Applies an update to the entry at `pos` and hands back the updated
/// metadata.  The file itself, already rewritten (and moved when
/// `new_filename` carries the destination name), is the caller's concern.
pub fn commit_update(
    index: &mut PromptIndex,
    pos: usize,
    meta: &PromptMetadata,
    new_filename: Option<String>,
    now: &str,
) -> (r: PromptMetadata)
    requires
        pos < old(index)@.prompts.len(),
    ensures
        final(index)@.prompts == old(index)@.prompts.update(
            pos as int,
            updated_entry(old(index)@.prompts[pos as int], meta@, new_filename.deep_view(), now@),
        ),
        final(index)@.folders == old(index)@.folders,
        final(index)@.folder_meta == old(index)@.folder_meta,
        final(index)@.seeded == old(index)@.seeded,
        r@ == updated_entry(old(index)@.prompts[pos as int], meta@, new_filename.deep_view(), now@),
{
    let ghost old_idx = old(index)@;
    let mut e = index.prompts[pos].duplicate();
    e.name = meta.name.clone();
    e.folder = meta.folder.clone();
    e.description = meta.description.clone();
    e.icon = crate::model::clone_opt_string(&meta.icon);
    e.color = crate::model::clone_opt_string(&meta.color);
    e.updated = String::from_str(now);
    match new_filename {
        Some(f) => {
            e.filename = f;
        },
        None => {},
    }
    assert(e@ =~= updated_entry(old_idx.prompts[pos as int], meta@, new_filename.deep_view(), now@));
    let r = e.duplicate();
    index.prompts.set(pos, e);
    proof {
        assert(index@.prompts =~= old_idx.prompts.update(
            pos as int,
            updated_entry(old_idx.prompts[pos as int], meta@, new_filename.deep_view(), now@),
        ));
    }
    r
}

/// A created entry: the caller's fields, the chosen file name, no usage
/// history, and both timestamps set to now.  The identifier is the
/// caller's, or fresh when the caller left it empty.
pub open spec fn created_entry_ok(
    e: PromptMetadataModel,
    m: PromptMetadataModel,
    filename: Seq<char>,
    now: Seq<char>,
) -> bool {
    &&& (m.id.len() > 0 ==> e.id == m.id)
    &&& (m.id.len() == 0 ==> e.id.len() == 36)
    &&& e.name == m.name
    &&& e.folder == m.folder
    &&& e.description == m.description
    &&& e.filename == filename
    &&& e.use_count == 0
    &&& e.last_used is None
    &&& e.created == now
    &&& e.updated == now
    &&& e.icon == m.icon
    &&& e.color == m.color
}

/// Registers a new entry, after its file has been written: the folder is
/// added to the folder list when new, and the entry appended.  Hands back
/// the stored metadata.
pub fn commit_create(
    index: &mut PromptIndex,
    meta: &PromptMetadata,
    filename: &String,
    now: &str,
) -> (r: PromptMetadata)
    ensures
        created_entry_ok(r@, meta@, filename@, now@),
        final(index)@.prompts == old(index)@.prompts.push(r@),
        final(index)@.folders == if meta.folder@.len() > 0 && !old(index)@.folders.contains(
            meta.folder@,
        ) {
            old(index)@.folders.push(meta.folder@)
        } else {
            old(index)@.folders
        },
        final(index)@.folder_meta == old(index)@.folder_meta,
        final(index)@.seeded == old(index)@.seeded,
{
    let ghost old_idx = old(index)@;
    let id = if meta.id.as_str().is_empty() {
        new_id()
    } else {
        meta.id.clone()
    };
    if !meta.folder.as_str().is_empty() && !vec_contains_str(&index.folders, meta.folder.as_str()) {
        index.folders.push(meta.folder.clone());
        proof {
            assert(index@.folders =~= old_idx.folders.push(meta.folder@));
        }
    }
    let e = PromptMetadata {
        id,
        name: meta.name.clone(),
        folder: meta.folder.clone(),
        description: meta.description.clone(),
        filename: filename.clone(),
        use_count: 0,
        last_used: None,
        created: String::from_str(now),
        updated: String::from_str(now),
        icon: crate::model::clone_opt_string(&meta.icon),
        color: crate::model::clone_opt_string(&meta.color),
    };
    let r = e.duplicate();
    let ghost before = index@.prompts;
    index.prompts.push(e);
    proof {
        assert(index@.prompts =~= before.push(r@));
        assert(before == old_idx.prompts);
    }
    r
}

/// The entries that do not carry an identifier, in order.
pub open spec fn prompts_without_id(
    ps: Seq<PromptMetadataModel>,
    id: Seq<char>,
) -> Seq<PromptMetadataModel>
    decreases ps.len(),
{
    if ps.len() == 0 {
        ps
    } else {
        let rest = prompts_without_id(ps.drop_last(), id);
        if ps.last().id == id {
            rest
        } else {
            rest.push(ps.last())
        }
    }
}

/// The error message for an unknown document identifier.
fn prompt_missing_msg(id: &str) -> String {
    String::from_str("Prompt '").concat(id).concat("' not found")
}

/// Unregisters a document: every entry carrying the identifier leaves the
/// index, and the first one is handed back so that the caller can remove
/// the backing file afterwards.  An unknown identifier is an error, and
/// the index is untouched.
pub fn delete_prompt(index: &mut PromptIndex, id: &str) -> (r: AppResult<PromptMetadata>)
    ensures
        r is Ok <==> first_id_index(old(index)@.prompts, id@) >= 0,
        r is Err ==> final(index)@ == old(index)@,
        r is Ok ==> {
            &&& r->Ok_0@ == old(index)@.prompts[first_id_index(old(index)@.prompts, id@)]
            &&& final(index)@.prompts == prompts_without_id(old(index)@.prompts, id@)
            &&& final(index)@.folders == old(index)@.folders
            &&& final(index)@.folder_meta == old(index)@.folder_meta
            &&& final(index)@.seeded == old(index)@.seeded
        },
{
    let ghost old_idx = old(index)@;
    let pos = match find_by_id(index, id) {
        Some(p) => p,
        None => {
            proof {
                lemma_first_id_index(old_idx.prompts, id@);
            }
            return Err(prompt_missing_msg(id));
        },
    };
    let removed = index.prompts[pos].duplicate();
    // Drop every entry carrying the identifier.
    let n = index.prompts.len();
    let mut kept: Vec<PromptMetadata> = Vec::new();
    let mut i: usize = 0;
    while i < n
        invariant
            n == index.prompts@.len(),
            index@ == old_idx,
            i <= n,
            metas_of(kept@) == prompts_without_id(old_idx.prompts.take(i as int), id@),
        decreases n - i,
    {
        proof {
            assert(old_idx.prompts.take(i + 1).drop_last() =~= old_idx.prompts.take(i as int));
            assert(old_idx.prompts.take(i + 1).last() == old_idx.prompts[i as int]);
            assert(index.prompts@[i as int]@ == old_idx.prompts[i as int]);
        }
        if !str_eq_str(index.prompts[i].id.as_str(), id) {
            kept.push(index.prompts[i].duplicate());
        }
        i = i + 1;
        assert(metas_of(kept@) =~= prompts_without_id(old_idx.prompts.take(i as int), id@));
    }
    proof {
        assert(old_idx.prompts.take(n as int) =~= old_idx.prompts);
    }
    index.prompts = kept;
    Ok(removed)
}

/// An entry after a usage recording: the counter one higher (to its
/// maximum), and the moment remembered.
pub open spec fn used_entry(e: PromptMetadataModel, now: Seq<char>) -> PromptMetadataModel {
    PromptMetadataModel {
        use_count: if e.use_count < u64::MAX { (e.use_count + 1) as u64 } else { e.use_count },
        last_used: Some(now),
        ..e
    }
}

/// Counts one use of a document at the given moment.  An unknown
/// identifier is an error, and the index is untouched.
pub fn record_usage(index: &mut PromptIndex, id: &str, now: &str) -> (r: AppResult<()>)
    ensures
        r is Ok <==> first_id_index(old(index)@.prompts, id@) >= 0,
        r is Err ==> final(index)@ == old(index)@,
        r is Ok ==> {
            &&& final(index)@.prompts == old(index)@.prompts.update(
                first_id_index(old(index)@.prompts, id@),
                used_entry(old(index)@.prompts[first_id_index(old(index)@.prompts, id@)], now@),
            )
            &&& final(index)@.folders == old(index)@.folders
            &&& final(index)@.folder_meta == old(index)@.folder_meta
            &&& final(index)@.seeded == old(index)@.seeded
        },
{
    let ghost old_idx = old(index)@;
    let pos = match find_by_id(index, id) {
        Some(p) => p,
        None => {
            proof {
                lemma_first_id_index(old_idx.prompts, id@);
            }
            return Err(prompt_missing_msg(id));
        },
    };
    let mut e = index.prompts[pos].duplicate();
    if e.use_count < u64::MAX {
        e.use_count = e.use_count + 1;
    }
    e.last_used = Some(String::from_str(now));
    assert(e@ =~= used_entry(old_idx.prompts[pos as int], now@));
    index.prompts.set(pos, e);
    proof {
        assert(index@.prompts =~= old_idx.prompts.update(
            pos as int,
            used_entry(old_idx.prompts[pos as int], now@),
        ));
    }
    Ok(())
}

/// An entry filed under a renamed folder, after the rename: the new
/// folder name and a fresh `updated` timestamp; any other entry
/// unchanged.
pub open spec fn entry_folder_renamed_at(
    e: PromptMetadataModel,
    o: Seq<char>,
    n: Seq<char>,
    now: Seq<char>,
) -> PromptMetadataModel {
    if e.folder == o {
        PromptMetadataModel { folder: n, updated: now, ..e }
    } else {
        e
    }
}

/// Decides whether a folder rename request is to be carried out: the
/// same name twice is a no-op, an empty target name is an error, and
/// anything else proceeds.
pub fn validate_folder_rename(old_name: &str, new_name: &str) -> (r: AppResult<bool>)
    ensures
        old_name@ == new_name@ ==> r is Ok && r->Ok_0 == false,
        old_name@ != new_name@ && new_name@.len() == 0 ==> r is Err,
        old_name@ != new_name@ && new_name@.len() > 0 ==> r is Ok && r->Ok_0 == true,
{
    if str_eq_str(old_name, new_name) {
        return Ok(false);
    }
    if new_name.is_empty() {
        return Err(String::from_str("New folder name cannot be empty"));
    }
    Ok(true)
}

/// Renames a folder across the index, after its directory has moved:
/// every entry filed under the old name moves to the new name with a
/// fresh `updated` timestamp, the folder list slot is renamed where
/// present, and the decoration record is re-keyed.
pub fn apply_folder_rename(index: &mut PromptIndex, old_name: &str, new_name: &str, now: &str)
    ensures
        final(index)@.prompts.len() == old(index)@.prompts.len(),
        forall|i: int|
            0 <= i < old(index)@.prompts.len() ==> #[trigger] final(index)@.prompts[i]
                == entry_folder_renamed_at(old(index)@.prompts[i], old_name@, new_name@, now@),
        final(index)@.folders == if old(index)@.folders.contains(old_name@) {
            old(index)@.folders.update(first_index(old(index)@.folders, old_name@), new_name@)
        } else {
            old(index)@.folders
        },
        final(index)@.folder_meta == match old(index)@.folder_meta {
            None => None,
            Some(ms) => Some(meta_rename(ms, old_name@, new_name@)),
        },
        final(index)@.seeded == old(index)@.seeded,
{
    let ghost old_idx = old(index)@;
    // Every entry filed under the old name moves, with its timestamp
    // refreshed.
    let n = index.prompts.len();
    let mut i: usize = 0;
    while i < n
        invariant
            n == index.prompts@.len(),
            n == old_idx.prompts.len(),
            i <= n,
            index@.folders == old_idx.folders,
            index@.folder_meta == old_idx.folder_meta,
            index@.seeded == old_idx.seeded,
            forall|k: int|
                0 <= k < i ==> #[trigger] index@.prompts[k] == entry_folder_renamed_at(
                    old_idx.prompts[k],
                    old_name@,
                    new_name@,
                    now@,
                ),
            forall|k: int| i <= k < n ==> #[trigger] index@.prompts[k] == old_idx.prompts[k],
        decreases n - i,
    {
        proof {
            assert(index@.prompts[i as int] == old_idx.prompts[i as int]);
            assert(index.prompts@[i as int]@ == index@.prompts[i as int]);
        }
        if str_eq_str(index.prompts[i].folder.as_str(), old_name) {
            let ghost before = index@.prompts;
            let mut e = index.prompts[i].duplicate();
            e.folder = String::from_str(new_name);
            e.updated = String::from_str(now);
            assert(e@ =~= entry_folder_renamed_at(
                old_idx.prompts[i as int],
                old_name@,
                new_name@,
                now@,
            ));
            index.prompts.set(i, e);
            proof {
                assert(forall|k: int|
                    0 <= k < n && k != i ==> #[trigger] index@.prompts[k] == before[k]);
                assert(index@.prompts[i as int] == e@);
            }
        } else {
            proof {
                assert(index@.prompts[i as int] == entry_folder_renamed_at(
                    old_idx.prompts[i as int],
                    old_name@,
                    new_name@,
                    now@,
                ));
            }
        }
        i = i + 1;
    }
    // The folder list slot, where the old name is listed.
    proof {
        lemma_first_index(old_idx.folders, old_name@);
    }
    match crate::index_service::find_folder_position(&index.folders, old_name) {
        Some(pos) => {
            let ghost pm_snapshot = index@.prompts;
            index.folders.set(pos, String::from_str(new_name));
            proof {
                assert(index@.prompts == pm_snapshot);
                assert(index@.folders =~= old_idx.folders.update(
                    first_index(old_idx.folders, old_name@),
                    new_name@,
                ));
            }
        },
        None => {},
    }
    // The decoration record.
    let ghost pm_snapshot = index@.prompts;
    let ghost fl_snapshot = index@.folders;
    let new_meta: Option<Vec<FolderMeta>> = match &index.folder_meta {
        None => None,
        Some(ms) => Some(rename_meta_list(ms, old_name, new_name)),
    };
    index.folder_meta = new_meta;
    proof {
        assert(index@.prompts == pm_snapshot);
        assert(index@.folders == fl_snapshot);
    }
}

/// One file move that a folder deletion asks of the caller: the file
/// leaves the deleted folder for the documents root, possibly under a new
/// name.
pub struct MoveOp {
    pub from: String,
    pub to: String,
}

/// How many of the first `upto` entries are filed under the folder.
pub open spec fn moved_count(ps: Seq<PromptMetadataModel>, name: Seq<char>, upto: int) -> int
    decreases upto,
{
    if upto <= 0 {
        0
    } else {
        moved_count(ps, name, upto - 1) + if ps[upto - 1].folder == name {
            1int
        } else {
            0int
        }
    }
}

proof fn lemma_moved_count_mono(ps: Seq<PromptMetadataModel>, name: Seq<char>, a: int, b: int)
    requires
        0 <= a <= b,
    ensures
        moved_count(ps, name, a) <= moved_count(ps, name, b),
    decreases b,
{
    if a < b {
        lemma_moved_count_mono(ps, name, a, b - 1);
    }
}

proof fn lemma_moved_count_bounds(ps: Seq<PromptMetadataModel>, name: Seq<char>, upto: int)
    requires
        0 <= upto <= ps.len(),
    ensures
        0 <= moved_count(ps, name, upto) <= upto,
    decreases upto,
{
    if upto > 0 {
        lemma_moved_count_bounds(ps, name, upto - 1);
    }
}

/// The target file names of a move list, in order.
pub open spec fn move_targets(moves: Seq<MoveOp>) -> Seq<Seq<char>> {
    Seq::new(moves.len(), |j: int| moves[j].to@)
}

/// Unregisters a folder and relocates its documents: every entry filed
/// under the folder moves to the root with a fresh `updated` timestamp,
/// keeping its file name when no root file or earlier move already
/// claims it, and otherwise taking what the unique-name algorithm yields
/// against the names taken at its turn — so no move overwrites a root
/// file or another move's target, short of the algorithm's exhausted
/// thousand-collisions case.  The folder leaves the folder list and its
/// decoration record is dropped.  The returned moves tell the caller
/// which files to relocate, in entry order.  The root folder itself
/// cannot be deleted, and no document is ever deleted here.
pub fn delete_folder_relocate(
    index: &mut PromptIndex,
    name: &str,
    root_taken: Vec<String>,
    now: &str,
) -> (r: AppResult<Vec<MoveOp>>)
    ensures
        name@.len() == 0 ==> r is Err && final(index)@ == old(index)@,
        name@.len() > 0 ==> {
            let old_ps = old(index)@.prompts;
            let moves = r->Ok_0;
            &&& r is Ok
            &&& final(index)@.prompts.len() == old_ps.len()
            &&& forall|i: int|
                0 <= i < old_ps.len() && old_ps[i].folder != name@
                    ==> #[trigger] final(index)@.prompts[i] == old_ps[i]
            &&& forall|i: int|
                0 <= i < old_ps.len() && old_ps[i].folder == name@ ==> {
                    let e = #[trigger] final(index)@.prompts[i];
                    &&& e.folder == Seq::<char>::empty()
                    &&& e.updated == now@
                    &&& e.id == old_ps[i].id
                    &&& e.name == old_ps[i].name
                    &&& e.description == old_ps[i].description
                    &&& e.use_count == old_ps[i].use_count
                    &&& e.last_used == old_ps[i].last_used
                    &&& e.created == old_ps[i].created
                    &&& e.icon == old_ps[i].icon
                    &&& e.color == old_ps[i].color
                    &&& moves@[moved_count(old_ps, name@, i)].from@ == old_ps[i].filename
                    &&& moves@[moved_count(old_ps, name@, i)].to@ == e.filename
                    &&& ({
                        let tk = root_taken.deep_view() + move_targets(moves@).take(
                            moved_count(old_ps, name@, i),
                        );
                        &&& (!tk.contains(old_ps[i].filename) ==> e.filename
                            == old_ps[i].filename)
                        &&& (tk.contains(old_ps[i].filename) ==> unique_choice_ok(
                            tk,
                            old_ps[i].name,
                            e.filename,
                        ))
                    })
                }
            &&& moves@.len() == moved_count(old_ps, name@, old_ps.len() as int)
            &&& final(index)@.folders == folders_without(old(index)@.folders, name@)
            &&& final(index)@.folder_meta == match old(index)@.folder_meta {
                None => None,
                Some(ms) => Some(metas_without(ms, name@)),
            }
            &&& final(index)@.seeded == old(index)@.seeded
        },
{
    let ghost old_idx = old(index)@;
    let ghost old_ps = old_idx.prompts;
    let ghost rt = root_taken.deep_view();
    if name.is_empty() {
        return Err(String::from_str("Cannot delete the root folder"));
    }
    let mut taken = root_taken;
    assert(taken.deep_view() =~= rt + move_targets(Seq::<MoveOp>::empty()));
    let mut moves: Vec<MoveOp> = Vec::new();
    let n = index.prompts.len();
    let mut i: usize = 0;
    while i < n
        invariant
            n == index.prompts@.len(),
            n == old_ps.len(),
            i <= n,
            index@.folders == old_idx.folders,
            index@.folder_meta == old_idx.folder_meta,
            index@.seeded == old_idx.seeded,
            moves@.len() == moved_count(old_ps, name@, i as int),
            rt == root_taken.deep_view(),
            taken.deep_view() == rt + move_targets(moves@),
            forall|k: int|
                0 <= k < i && old_ps[k].folder != name@ ==> #[trigger] index@.prompts[k]
                    == old_ps[k],
            forall|k: int|
                0 <= k < i && old_ps[k].folder == name@ ==> {
                    let e = #[trigger] index@.prompts[k];
                    &&& e.folder == Seq::<char>::empty()
                    &&& e.updated == now@
                    &&& e.id == old_ps[k].id
                    &&& e.name == old_ps[k].name
                    &&& e.description == old_ps[k].description
                    &&& e.use_count == old_ps[k].use_count
                    &&& e.last_used == old_ps[k].last_used
                    &&& e.created == old_ps[k].created
                    &&& e.icon == old_ps[k].icon
                    &&& e.color == old_ps[k].color
                    &&& moves@[moved_count(old_ps, name@, k)].from@ == old_ps[k].filename
                    &&& moves@[moved_count(old_ps, name@, k)].to@ == e.filename
                    &&& ({
                        let tk = rt + move_targets(moves@).take(moved_count(old_ps, name@, k));
                        &&& (!tk.contains(old_ps[k].filename) ==> e.filename
                            == old_ps[k].filename)
                        &&& (tk.contains(old_ps[k].filename) ==> unique_choice_ok(
                            tk,
                            old_ps[k].name,
                            e.filename,
                        ))
                    })
                },
            forall|k: int| i <= k < n ==> #[trigger] index@.prompts[k] == old_ps[k],
        decreases n - i,
    {
        proof {
            lemma_moved_count_bounds(old_ps, name@, i as int);
            assert(index@.prompts[i as int] == old_ps[i as int]);
            assert(index.prompts@[i as int]@ == index@.prompts[i as int]);
        }
        if str_eq_str(index.prompts[i].folder.as_str(), name) {
            let ghost before = index@.prompts;
            let ghost moves0 = moves@;
            let ghost tk0 = taken.deep_view();
            let mut e = index.prompts[i].duplicate();
            let collided = vec_contains_str(&taken, e.filename.as_str());
            let target = if collided {
                ensure_unique_filename(&taken, e.name.as_str())
            } else {
                e.filename.clone()
            };
            let ghost tv = target@;
            proof {
                // The names taken at this entry's turn are the root files
                // plus every earlier move's target.
                assert(move_targets(moves0).take(moved_count(old_ps, name@, i as int))
                    =~= move_targets(moves0));
                assert(tk0 == rt + move_targets(moves0).take(moved_count(old_ps, name@, i as int)));
                assert(collided == tk0.contains(old_ps[i as int].filename));
                if collided {
                    assert(unique_choice_ok(tk0, old_ps[i as int].name, tv));
                } else {
                    assert(tv == old_ps[i as int].filename);
                }
            }
            moves.push(MoveOp { from: e.filename.clone(), to: target.clone() });
            taken.push(target.clone());
            e.folder = String::new();
            e.filename = target;
            e.updated = String::from_str(now);
            let ghost em = e@;
            index.prompts.set(i, e);
            proof {
                assert(index@.prompts[i as int] == em);
                assert(em.folder == Seq::<char>::empty() && em.updated == now@);
                assert(moves@[moved_count(old_ps, name@, i as int)].from@
                    == old_ps[i as int].filename);
                assert(moves@[moved_count(old_ps, name@, i as int)].to@ == em.filename);
                assert(forall|k: int|
                    0 <= k < n && k != i ==> #[trigger] index@.prompts[k] == before[k]);
                assert(forall|k: int| 0 <= k < moves0.len() ==> moves@[k] == moves0[k]);
                assert(moved_count(old_ps, name@, i + 1) == moved_count(old_ps, name@, i as int)
                    + 1);
                assert forall|k: int|
                    0 <= k < i && old_ps[k].folder == name@ implies moved_count(
                    old_ps,
                    name@,
                    k,
                ) < moves0.len() by {
                    assert(moved_count(old_ps, name@, k + 1) == moved_count(old_ps, name@, k) + 1);
                    lemma_moved_count_mono(old_ps, name@, k + 1, i as int);
                }
                // Earlier turns saw the same taken names as before.
                assert(move_targets(moves@) =~= move_targets(moves0).push(tv));
                assert(taken.deep_view() =~= tk0.push(tv));
                assert(tk0.push(tv) =~= rt + move_targets(moves0).push(tv));
                assert(taken.deep_view() == rt + move_targets(moves@));
                assert forall|k: int|
                    0 <= k <= i && old_ps[k].folder == name@ implies move_targets(moves@).take(
                    moved_count(old_ps, name@, k),
                ) =~= move_targets(moves0).take(moved_count(old_ps, name@, k)) by {
                    lemma_moved_count_bounds(old_ps, name@, k);
                    if k < i {
                        assert(moved_count(old_ps, name@, k + 1) == moved_count(
                            old_ps,
                            name@,
                            k,
                        ) + 1);
                        lemma_moved_count_mono(old_ps, name@, k + 1, i as int);
                    } else {
                        lemma_moved_count_mono(old_ps, name@, k, i as int);
                    }
                }
                assert forall|k: int|
                    0 <= k < i + 1 && old_ps[k].folder == name@ implies {
                    let e2 = #[trigger] index@.prompts[k];
                    &&& e2.folder == Seq::<char>::empty()
                    &&& e2.updated == now@
                    &&& e2.id == old_ps[k].id
                    &&& e2.name == old_ps[k].name
                    &&& e2.description == old_ps[k].description
                    &&& e2.use_count == old_ps[k].use_count
                    &&& e2.last_used == old_ps[k].last_used
                    &&& e2.created == old_ps[k].created
                    &&& e2.icon == old_ps[k].icon
                    &&& e2.color == old_ps[k].color
                    &&& moves@[moved_count(old_ps, name@, k)].from@ == old_ps[k].filename
                    &&& moves@[moved_count(old_ps, name@, k)].to@ == e2.filename
                    &&& ({
                        let tk = rt + move_targets(moves@).take(moved_count(old_ps, name@, k));
                        &&& (!tk.contains(old_ps[k].filename) ==> e2.filename
                            == old_ps[k].filename)
                        &&& (tk.contains(old_ps[k].filename) ==> unique_choice_ok(
                            tk,
                            old_ps[k].name,
                            e2.filename,
                        ))
                    })
                } by {
                    assert(move_targets(moves@).take(moved_count(old_ps, name@, k))
                        == move_targets(moves0).take(moved_count(old_ps, name@, k)));
                    if k < i {
                        assert(index@.prompts[k] == before[k]);
                        lemma_moved_count_bounds(old_ps, name@, k);
                        assert(0 <= moved_count(old_ps, name@, k) < moves0.len());
                        assert(moves@[moved_count(old_ps, name@, k)] == moves0[moved_count(
                            old_ps,
                            name@,
                            k,
                        )]);
                    } else {
                        assert(index@.prompts[k] == em);
                        assert(rt + move_targets(moves@).take(moved_count(old_ps, name@, k))
                            == tk0);
                        assert(em.filename == tv);
                    }
                }
            }
        } else {
            proof {
                assert(moved_count(old_ps, name@, i + 1) == moved_count(old_ps, name@, i as int));
            }
        }
        i = i + 1;
    }
    // The folder leaves the folder list.
    let fl = index.folders.len();
    let mut kept_folders: Vec<String> = Vec::new();
    let mut a: usize = 0;
    let ghost pm_after_moves = index@.prompts;
    while a < fl
        invariant
            index@.prompts == pm_after_moves,
            index@.folders == old_idx.folders,
            index@.folder_meta == old_idx.folder_meta,
            index@.seeded == old_idx.seeded,
            fl == old_idx.folders.len(),
            a <= fl,
            kept_folders.deep_view() == folders_without(old_idx.folders.take(a as int), name@),
        decreases fl - a,
    {
        proof {
            assert(old_idx.folders.take(a + 1).drop_last() =~= old_idx.folders.take(a as int));
            assert(old_idx.folders.take(a + 1).last() == old_idx.folders[a as int]);
            assert(index.folders@[a as int]@ == old_idx.folders[a as int]);
        }
        if !str_eq_str(index.folders[a].as_str(), name) {
            kept_folders.push(index.folders[a].clone());
        }
        a = a + 1;
        assert(kept_folders.deep_view() =~= folders_without(old_idx.folders.take(a as int), name@));
    }
    proof {
        assert(old_idx.folders.take(fl as int) =~= old_idx.folders);
    }
    index.folders = kept_folders;
    // The decoration record is dropped.
    let ghost pm_snapshot = index@.prompts;
    let ghost fl_snapshot = index@.folders;
    let new_meta: Option<Vec<FolderMeta>> = match &index.folder_meta {
        None => None,
        Some(ms) => Some(remove_meta_list(ms, name)),
    };
    index.folder_meta = new_meta;
    proof {
        assert(index@.prompts == pm_snapshot);
        assert(index@.folders == fl_snapshot);
    }
    Ok(moves)
}

/// When no entry carries an identifier, dropping that identifier's
/// entries changes nothing.
proof fn lemma_without_absent_id(ps: Seq<PromptMetadataModel>, id: Seq<char>)
    requires
        forall|i: int| 0 <= i < ps.len() ==> ps[i].id != id,
    ensures
        prompts_without_id(ps, id) == ps,
    decreases ps.len(),
{
    if ps.len() > 0 {
        assert(forall|i: int| 0 <= i < ps.len() - 1 ==> ps.drop_last()[i] == ps[i]);
        lemma_without_absent_id(ps.drop_last(), id);
        assert(prompts_without_id(ps, id) =~= ps);
    }
}

/// Creating a document under a fresh identifier and then deleting that
/// identifier leaves the entry list exactly as it was.
pub proof fn lemma_create_then_delete(
    ps: Seq<PromptMetadataModel>,
    e: PromptMetadataModel,
    id: Seq<char>,
)
    requires
        e.id == id,
        forall|i: int| 0 <= i < ps.len() ==> ps[i].id != id,
    ensures
        prompts_without_id(ps.push(e), id) == ps,
{
    assert(ps.push(e).drop_last() =~= ps);
    assert(ps.push(e).last() == e);
    lemma_without_absent_id(ps, id);
}

/// A folder rename cascades to every document: afterwards no entry is
/// filed under the old name, every entry that was is filed under the new
/// name with its timestamp refreshed, and every other entry is left
/// exactly as it was.
pub proof fn lemma_rename_cascade(
    old_ps: Seq<PromptMetadataModel>,
    new_ps: Seq<PromptMetadataModel>,
    o: Seq<char>,
    n: Seq<char>,
    now: Seq<char>,
)
    requires
        o != n,
        new_ps.len() == old_ps.len(),
        forall|i: int|
            0 <= i < old_ps.len() ==> #[trigger] new_ps[i] == entry_folder_renamed_at(
                old_ps[i],
                o,
                n,
                now,
            ),
    ensures
        forall|i: int| 0 <= i < new_ps.len() ==> (#[trigger] new_ps[i]).folder != o,
        forall|i: int|
            0 <= i < old_ps.len() && (#[trigger] old_ps[i]).folder == o ==> new_ps[i].folder == n
                && new_ps[i].updated == now,
        forall|i: int|
            0 <= i < old_ps.len() && (#[trigger] old_ps[i]).folder != o ==> new_ps[i] == old_ps[i],
{
}

/// Whenever the unique-name algorithm had a free candidate — the plain
/// name or one of its numbered variants — its choice avoids every taken
/// name.  With [`delete_folder_relocate`]'s per-entry clauses, whose
/// taken set at each turn holds the root file names and every earlier
/// target, this is why a folder deletion overwrites no file short of the
/// exhausted thousand-collisions case.
pub proof fn lemma_choice_avoids_taken(taken: Seq<Seq<char>>, base: Seq<char>, r: Seq<char>)
    requires
        unique_choice_ok(taken, base, r),
        !taken.contains(sanitized_of(base) + ".md"@) || (exists|i: int|
            1 <= i < 1000 && !taken.contains(numbered_candidate(sanitized_of(base), i))),
    ensures
        !taken.contains(r),
{
}

} // verus!
