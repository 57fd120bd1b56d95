//! The search ranker: fuzzy subsequence scoring of index entries against
//! a query, and recency ordering for the empty query.
//!
//! Scores are integers in millionths, so that the per-position bonus of
//! one part in `position + 1` stays exact enough to rank on.

use vstd::prelude::*;

use crate::model::{metas_of, PromptMetadata, PromptMetadataModel};
use crate::strutil::{chars_vec, is_space, is_space_char, lex_le, lemma_lex_le_total,
    lemma_lex_le_trans, lower_of, lowercase, str_le};

verus! {

/// One point of score, in millionths.
pub const FUZZY_SCALE: u128 = 1000000;

/// One pass of the subsequence walk from position `ti` of the text, with
/// `qi` query characters already matched, the position of the previous
/// match in `prev` (`-1` for none), and `acc` points collected: every
/// matched character earns one point, two more when it directly follows
/// the previous match, and an early-position bonus of one point divided
/// by its position.  Yields the collected points and how many query
/// characters matched.
pub open spec fn fuzzy_walk(
    text: Seq<char>,
    query: Seq<char>,
    ti: int,
    qi: int,
    prev: int,
    acc: int,
) -> (int, int)
    decreases text.len() - ti,
{
    if ti < 0 || ti >= text.len() {
        (acc, qi)
    } else if qi < query.len() && text[ti] == query[qi] {
        let bonus = if prev >= 0 && ti == prev + 1 {
            2 * FUZZY_SCALE as int
        } else {
            0
        };
        fuzzy_walk(
            text,
            query,
            ti + 1,
            qi + 1,
            ti,
            acc + FUZZY_SCALE as int + bonus + FUZZY_SCALE as int / (ti + 1),
        )
    } else {
        fuzzy_walk(text, query, ti + 1, qi, prev, acc)
    }
}

/// The subsequence score of a query against a text: the points of the
/// walk when every query character matched, zero otherwise; an empty
/// query scores one point, and a query longer than the text scores zero.
pub open spec fn fuzzy_score_of(text: Seq<char>, query: Seq<char>) -> int {
    if query.len() == 0 {
        FUZZY_SCALE as int
    } else if query.len() > text.len() {
        0
    } else {
        let r = fuzzy_walk(text, query, 0, 0, -1, 0);
        if r.1 == query.len() {
            r.0
        } else {
            0
        }
    }
}

/// The walk only collects points, at most four per matched character, and
/// never loses matched characters.
proof fn lemma_fuzzy_walk_bounds(text: Seq<char>, query: Seq<char>, ti: int, qi: int, prev: int, acc: int)
    requires
        0 <= ti <= text.len(),
        0 <= qi <= query.len(),
    ensures
        ({
            let r = fuzzy_walk(text, query, ti, qi, prev, acc);
            &&& qi <= r.1 <= query.len()
            &&& r.0 >= acc
            &&& r.0 <= acc + 4 * FUZZY_SCALE as int * (query.len() - qi)
        }),
    decreases text.len() - ti,
{
    if ti < text.len() {
        if qi < query.len() && text[ti] == query[qi] {
            let bonus: int = if prev >= 0 && ti == prev + 1 {
                2 * FUZZY_SCALE as int
            } else {
                0
            };
            let step = FUZZY_SCALE as int + bonus + FUZZY_SCALE as int / (ti + 1);
            assert(FUZZY_SCALE as int / (ti + 1) <= FUZZY_SCALE as int) by (nonlinear_arith)
                requires
                    ti >= 0,
            ;
            assert(FUZZY_SCALE as int / (ti + 1) >= 0) by (nonlinear_arith)
                requires
                    ti >= 0,
            ;
            lemma_fuzzy_walk_bounds(text, query, ti + 1, qi + 1, ti, acc + step);
        } else {
            lemma_fuzzy_walk_bounds(text, query, ti + 1, qi, prev, acc);
        }
    }
}

/// The score of a query against a text is never negative and grows at
/// most four points per query character.
pub proof fn lemma_fuzzy_score_bounds(text: Seq<char>, query: Seq<char>)
    ensures
        0 <= fuzzy_score_of(text, query),
        fuzzy_score_of(text, query) <= FUZZY_SCALE as int + 4 * FUZZY_SCALE as int * query.len(),
{
    if query.len() > 0 && query.len() <= text.len() {
        lemma_fuzzy_walk_bounds(text, query, 0, 0, -1, 0);
    }
}

/// Computes [`fuzzy_score_of`].
fn fuzzy_score(text: &Vec<char>, query: &Vec<char>) -> (r: u128)
    ensures
        r as int == fuzzy_score_of(text@, query@),
{
    proof {
        lemma_fuzzy_score_bounds(text@, query@);
    }
    let tn = text.len();
    let qn = query.len();
    if qn == 0 {
        return FUZZY_SCALE;
    }
    if qn > tn {
        return 0;
    }
    let mut acc: u128 = 0;
    let mut qi: usize = 0;
    let mut prev: usize = 0;
    let mut has_prev = false;
    let mut ti: usize = 0;
    while ti < tn
        invariant
            tn == text@.len(),
            qn == query@.len(),
            qn <= tn,
            ti <= tn,
            qi <= qn,
            has_prev ==> prev < ti,
            acc as int <= 4 * FUZZY_SCALE as int * qi,
            fuzzy_walk(
                text@,
                query@,
                ti as int,
                qi as int,
                if has_prev {
                    prev as int
                } else {
                    -1
                },
                acc as int,
            ) == fuzzy_walk(text@, query@, 0, 0, -1, 0),
        decreases tn - ti,
    {
        proof {
            assert(4 * FUZZY_SCALE as int * qi <= 4 * FUZZY_SCALE as int * qn) by (nonlinear_arith)
                requires
                    qi <= qn,
            ;
            assert(qn < 0x1_0000_0000_0000_0000_0000) by {
                assert(qn <= usize::MAX);
            }
            assert(4 * FUZZY_SCALE as int * qn < 0x1_0000_0000_0000_0000_0000_0000_0000)
                by (nonlinear_arith)
                requires
                    qn < 0x1_0000_0000_0000_0000_0000,
            ;
        }
        if qi < qn && text[ti] == query[qi] {
            let bonus: u128 = if has_prev && ti == prev + 1 {
                2 * FUZZY_SCALE
            } else {
                0
            };
            let pos_bonus: u128 = FUZZY_SCALE / (ti as u128 + 1);
            proof {
                assert(FUZZY_SCALE as int / (ti as int + 1) <= FUZZY_SCALE as int)
                    by (nonlinear_arith)
                    requires
                        ti >= 0,
                ;
                assert(pos_bonus as int == FUZZY_SCALE as int / (ti as int + 1));
            }
            proof {
                assert(bonus as int <= 2 * FUZZY_SCALE as int);
                assert(acc as int + FUZZY_SCALE as int + bonus as int + pos_bonus as int <= 4
                    * FUZZY_SCALE as int * (qi as int + 1)) by {
                    assert(4 * FUZZY_SCALE as int * (qi as int + 1) == 4 * FUZZY_SCALE as int * (
                    qi as int) + 4 * FUZZY_SCALE as int) by (nonlinear_arith);
                }
            }
            acc = acc + FUZZY_SCALE + bonus + pos_bonus;
            prev = ti;
            has_prev = true;
            qi = qi + 1;
        }
        ti = ti + 1;
    }
    if qi == qn {
        acc
    } else {
        0
    }
}

/// The weighted score of a query against one entry: the best of the
/// subsequence scores of the lowercased name (three-fold), description
/// (two-fold) and folder (single), zero when none match, plus a ten-point
/// bonus when the lowercased name starts with the query.
pub open spec fn compute_score_of(m: PromptMetadataModel, q: Seq<char>) -> int {
    let name_score = 3 * fuzzy_score_of(lower_of(m.name), q);
    let desc_score = 2 * fuzzy_score_of(lower_of(m.description), q);
    let folder_score = fuzzy_score_of(lower_of(m.folder), q);
    let best = if name_score >= desc_score && name_score >= folder_score {
        name_score
    } else if desc_score >= folder_score {
        desc_score
    } else {
        folder_score
    };
    if best <= 0 {
        0
    } else {
        best + if q.is_prefix_of(lower_of(m.name)) {
            10 * FUZZY_SCALE as int
        } else {
            0
        }
    }
}

/// Whether `q` is a prefix of `s`, decided character by character.
fn is_prefix_vec(q: &Vec<char>, s: &Vec<char>) -> (r: bool)
    ensures
        r == q@.is_prefix_of(s@),
{
    let qn = q.len();
    if qn > s.len() {
        assert(!q@.is_prefix_of(s@));
        return false;
    }
    let mut i: usize = 0;
    while i < qn
        invariant
            qn == q@.len(),
            qn <= s@.len(),
            i <= qn,
            forall|j: int| 0 <= j < i ==> q@[j] == s@[j],
        decreases qn - i,
    {
        if q[i] != s[i] {
            assert(!q@.is_prefix_of(s@));
            return false;
        }
        i = i + 1;
    }
    assert(q@ =~= s@.take(qn as int));
    true
}

/// Computes [`compute_score_of`].
fn compute_score(p: &PromptMetadata, query_lower: &Vec<char>) -> (r: u128)
    ensures
        r as int == compute_score_of(p@, query_lower@),
{
    let ghost q = query_lower@;
    let qlen = query_lower.len();
    proof {
        lemma_fuzzy_score_bounds(lower_of(p@.name), q);
        lemma_fuzzy_score_bounds(lower_of(p@.description), q);
        lemma_fuzzy_score_bounds(lower_of(p@.folder), q);
        assert(q.len() < 0x1_0000_0000_0000_0000_0000) by {
            assert(q.len() == qlen);
        }
        assert(FUZZY_SCALE as int + 4 * FUZZY_SCALE as int * q.len()
            < 0x1_0000_0000_0000_0000_0000_0000_0000) by (nonlinear_arith)
            requires
                q.len() < 0x1_0000_0000_0000_0000_0000,
        ;
    }
    let name_lower = lowercase(p.name.as_str());
    let name_chars = chars_vec(name_lower.as_str());
    let desc_lower = lowercase(p.description.as_str());
    let desc_chars = chars_vec(desc_lower.as_str());
    let folder_lower = lowercase(p.folder.as_str());
    let folder_chars = chars_vec(folder_lower.as_str());
    let name_score = 3 * fuzzy_score(&name_chars, query_lower);
    let desc_score = 2 * fuzzy_score(&desc_chars, query_lower);
    let folder_score = fuzzy_score(&folder_chars, query_lower);
    let best = if name_score >= desc_score && name_score >= folder_score {
        name_score
    } else if desc_score >= folder_score {
        desc_score
    } else {
        folder_score
    };
    if best == 0 {
        return 0;
    }
    if is_prefix_vec(query_lower, &name_chars) {
        best + 10 * FUZZY_SCALE
    } else {
        best
    }
}

/// Whether `a` ranks at least as high as `b` by recency: a remembered
/// last use ranks above none, later last uses rank higher, and entries
/// never used rank by their `updated` timestamp, later first.
pub open spec fn rec_le(a: PromptMetadataModel, b: PromptMetadataModel) -> bool {
    match (a.last_used, b.last_used) {
        (Some(x), Some(y)) => lex_le(y, x),
        (Some(x), None) => true,
        (None, Some(y)) => false,
        (None, None) => lex_le(b.updated, a.updated),
    }
}

/// Any two entries are comparable by recency.
pub proof fn lemma_rec_le_total(a: PromptMetadataModel, b: PromptMetadataModel)
    ensures
        rec_le(a, b) || rec_le(b, a),
{
    match (a.last_used, b.last_used) {
        (Some(x), Some(y)) => lemma_lex_le_total(y, x),
        (None, None) => lemma_lex_le_total(b.updated, a.updated),
        _ => (),
    }
}

/// Ranking by recency is transitive.
pub proof fn lemma_rec_le_trans(a: PromptMetadataModel, b: PromptMetadataModel, c: PromptMetadataModel)
    requires
        rec_le(a, b),
        rec_le(b, c),
    ensures
        rec_le(a, c),
{
    match (a.last_used, b.last_used, c.last_used) {
        (Some(x), Some(y), Some(z)) => lemma_lex_le_trans(z, y, x),
        (None, None, None) => lemma_lex_le_trans(c.updated, b.updated, a.updated),
        _ => (),
    }
}

/// Decides [`rec_le`].
fn rec_le_exec(a: &PromptMetadata, b: &PromptMetadata) -> (r: bool)
    ensures
        r == rec_le(a@, b@),
{
    match (&a.last_used, &b.last_used) {
        (Some(x), Some(y)) => str_le(y.as_str(), x.as_str()),
        (Some(_), None) => true,
        (None, Some(_)) => false,
        (None, None) => str_le(b.updated.as_str(), a.updated.as_str()),
    }
}

/// A copy of the entries ordered by recency, the most recently used
/// first; entries never used follow, the most recently updated first.
pub fn sort_by_recency(prompts: &Vec<PromptMetadata>) -> (r: Vec<PromptMetadata>)
    ensures
        metas_of(r@).to_multiset() == metas_of(prompts@).to_multiset(),
        forall|i: int, j: int|
            0 <= i < j < r@.len() ==> rec_le(#[trigger] metas_of(r@)[i], #[trigger] metas_of(
                r@,
            )[j]),
{
    broadcast use vstd::seq_lib::group_to_multiset_ensures;

    let ghost ps = metas_of(prompts@);
    let n = prompts.len();
    let mut sorted: Vec<PromptMetadata> = Vec::new();
    let mut i: usize = 0;
    while i < n
        invariant
            n == prompts@.len(),
            ps == metas_of(prompts@),
            i <= n,
            metas_of(sorted@).to_multiset() == metas_of(prompts@).take(i as int).to_multiset(),
            forall|a: int, b: int|
                0 <= a < b < sorted@.len() ==> rec_le(
                    #[trigger] metas_of(sorted@)[a],
                    #[trigger] metas_of(sorted@)[b],
                ),
        decreases n - i,
    {
        let item = prompts[i].duplicate();
        let ghost im = item@;
        // The new entry goes after everything ranking at least as high.
        let mut pos: usize = 0;
        while pos < sorted.len() && rec_le_exec(&sorted[pos], &item)
            invariant
                pos <= sorted@.len(),
                im == item@,
                forall|k: int| 0 <= k < pos ==> rec_le(#[trigger] metas_of(sorted@)[k], im),
            decreases sorted@.len() - pos,
        {
            pos = pos + 1;
        }
        let ghost before = sorted@;
        sorted.insert(pos, item);
        proof {
            assert(metas_of(sorted@) =~= metas_of(before).insert(pos as int, im));
            vstd::seq_lib::to_multiset_insert(metas_of(before), pos as int, im);
            assert(metas_of(prompts@).take(i + 1).drop_last() =~= metas_of(prompts@).take(
                i as int,
            ));
            assert(metas_of(prompts@).take(i + 1).last() == ps[i as int]);
            assert(ps[i as int] == im);
            let pre = metas_of(prompts@).take(i as int);
            assert(metas_of(prompts@).take(i + 1) =~= pre.push(im));
            vstd::seq_lib::to_multiset_build(pre, im);
            assert(metas_of(prompts@).take(i + 1).to_multiset() == pre.to_multiset().insert(im));
            // Everything past the insertion point ranks at or below the
            // new entry.
            if pos < before.len() {
                assert(!rec_le(metas_of(before)[pos as int], im));
                lemma_rec_le_total(metas_of(before)[pos as int], im);
            }
            assert forall|a: int, b: int|
                0 <= a < b < sorted@.len() implies rec_le(
                #[trigger] metas_of(sorted@)[a],
                #[trigger] metas_of(sorted@)[b],
            ) by {
                let cur = metas_of(sorted@);
                let old_s = metas_of(before);
                if b < pos {
                } else if a < pos && b == pos {
                } else if a < pos && b > pos {
                    assert(cur[b] == old_s[b - 1]);
                    if pos < old_s.len() {
                        lemma_rec_le_trans(cur[a], im, old_s[pos as int]);
                        if b - 1 > pos {
                            lemma_rec_le_trans(cur[a], old_s[pos as int], old_s[b - 1]);
                        }
                    }
                } else if a == pos && b > pos {
                    assert(cur[b] == old_s[b - 1]);
                    if pos < old_s.len() && b - 1 > pos {
                        lemma_rec_le_trans(im, old_s[pos as int], old_s[b - 1]);
                    }
                } else {
                    assert(cur[a] == old_s[a - 1] && cur[b] == old_s[b - 1]);
                }
            }
        }
        i = i + 1;
    }
    proof {
        assert(metas_of(prompts@).take(n as int) =~= metas_of(prompts@));
    }
    sorted
}

/// One scored entry awaiting ordering.
struct Scored {
    score: u128,
    meta: PromptMetadata,
}

/// The entry views of a scored list.
spec fn scored_metas(s: Seq<Scored>) -> Seq<PromptMetadataModel> {
    Seq::new(s.len(), |i: int| s[i].meta@)
}

/// The entries scoring above zero against a query, in order.
pub open spec fn positive_metas(
    ps: Seq<PromptMetadataModel>,
    q: Seq<char>,
) -> Seq<PromptMetadataModel>
    decreases ps.len(),
{
    if ps.len() == 0 {
        ps
    } else {
        let rest = positive_metas(ps.drop_last(), q);
        if compute_score_of(ps.last(), q) > 0 {
            rest.push(ps.last())
        } else {
            rest
        }
    }
}

/// A new entry placed after every entry scoring at least as much: one
/// step of stable descending insertion.
pub open spec fn insert_ranked(
    s: Seq<PromptMetadataModel>,
    e: PromptMetadataModel,
    q: Seq<char>,
) -> Seq<PromptMetadataModel>
    decreases s.len(),
{
    if s.len() == 0 {
        seq![e]
    } else if compute_score_of(s[0], q) >= compute_score_of(e, q) {
        seq![s[0]] + insert_ranked(s.drop_first(), e, q)
    } else {
        seq![e] + s
    }
}

/// The entries in descending score order with equal scores keeping their
/// relative order: each entry, in turn, goes after its score peers.
pub open spec fn ranked_metas(
    ps: Seq<PromptMetadataModel>,
    q: Seq<char>,
) -> Seq<PromptMetadataModel>
    decreases ps.len(),
{
    if ps.len() == 0 {
        ps
    } else {
        insert_ranked(ranked_metas(ps.drop_last(), q), ps.last(), q)
    }
}

/// Stable insertion lands exactly at the first position scoring less
/// than the new entry.
proof fn lemma_insert_ranked_at(
    s: Seq<PromptMetadataModel>,
    e: PromptMetadataModel,
    q: Seq<char>,
    pos: int,
)
    requires
        0 <= pos <= s.len(),
        forall|k: int|
            0 <= k < pos ==> compute_score_of(#[trigger] s[k], q) >= compute_score_of(e, q),
        pos < s.len() ==> compute_score_of(s[pos], q) < compute_score_of(e, q),
    ensures
        insert_ranked(s, e, q) == s.insert(pos, e),
    decreases pos,
{
    if pos == 0 {
        if s.len() == 0 {
            assert(insert_ranked(s, e, q) =~= s.insert(0, e));
        } else {
            assert(compute_score_of(s[0], q) < compute_score_of(e, q));
            assert(insert_ranked(s, e, q) =~= s.insert(0, e));
        }
    } else {
        assert(compute_score_of(s[0], q) >= compute_score_of(e, q));
        assert(forall|j: int| 0 <= j < s.len() - 1 ==> s.drop_first()[j] == s[j + 1]);
        lemma_insert_ranked_at(s.drop_first(), e, q, pos - 1);
        assert(insert_ranked(s, e, q) =~= s.insert(pos, e));
    }
}

/// Whether a query is empty or entirely whitespace.
pub open spec fn is_blank(q: Seq<char>) -> bool {
    forall|i: int| 0 <= i < q.len() ==> is_space(q[i])
}

/// Ranks the entries against a query.  A blank query yields every entry
/// in recency order.  Any other query is lowercased and scored against
/// each entry; entries scoring zero are left out and the rest come back
/// ordered by descending score, ties keeping their relative order.
pub fn search_prompts(prompts: &Vec<PromptMetadata>, query: &str) -> (r: Vec<PromptMetadata>)
    ensures
        is_blank(query@) ==> metas_of(r@).to_multiset() == metas_of(prompts@).to_multiset()
            && (forall|i: int, j: int|
            0 <= i < j < r@.len() ==> rec_le(#[trigger] metas_of(r@)[i], #[trigger] metas_of(
                r@,
            )[j])),
        !is_blank(query@) ==> ({
            let q = lower_of(query@);
            &&& metas_of(r@) == ranked_metas(positive_metas(metas_of(prompts@), q), q)
            &&& metas_of(r@).to_multiset() == positive_metas(metas_of(prompts@), q).to_multiset()
            &&& forall|i: int|
                0 <= i < r@.len() ==> compute_score_of(#[trigger] metas_of(r@)[i], q) > 0
            &&& forall|i: int, j: int|
                0 <= i < j < r@.len() ==> compute_score_of(#[trigger] metas_of(r@)[i], q)
                    >= compute_score_of(#[trigger] metas_of(r@)[j], q)
        }),
{
    broadcast use vstd::seq_lib::group_to_multiset_ensures;

    let qchars = chars_vec(query);
    let mut blank = true;
    let mut bi: usize = 0;
    while bi < qchars.len()
        invariant
            qchars@ == query@,
            bi <= qchars@.len(),
            blank == forall|j: int| 0 <= j < bi ==> is_space(qchars@[j]),
        decreases qchars@.len() - bi,
    {
        if !is_space_char(qchars[bi]) {
            blank = false;
        }
        bi = bi + 1;
    }
    if blank {
        return sort_by_recency(prompts);
    }
    assert(!is_blank(query@));
    let query_lower = lowercase(query);
    let ql = chars_vec(query_lower.as_str());
    let ghost q = lower_of(query@);
    assert(ql@ == q);
    let ghost ps = metas_of(prompts@);
    // Score every entry and keep the matches.
    let n = prompts.len();
    let mut scored: Vec<Scored> = Vec::new();
    let mut i: usize = 0;
    while i < n
        invariant
            n == prompts@.len(),
            ps == metas_of(prompts@),
            ql@ == q,
            i <= n,
            scored_metas(scored@) == positive_metas(ps.take(i as int), q),
            forall|k: int|
                0 <= k < scored@.len() ==> (#[trigger] scored@[k].score) as int == compute_score_of(
                    scored@[k].meta@,
                    q,
                ) && scored@[k].score > 0,
        decreases n - i,
    {
        proof {
            assert(ps.take(i + 1).drop_last() =~= ps.take(i as int));
            assert(ps.take(i + 1).last() == ps[i as int]);
            assert(prompts@[i as int]@ == ps[i as int]);
        }
        let s = compute_score(&prompts[i], &ql);
        if s > 0 {
            let ghost before = scored@;
            scored.push(Scored { score: s, meta: prompts[i].duplicate() });
            proof {
                assert(forall|k: int|
                    0 <= k < before.len() ==> scored@[k] == before[k]);
                assert(scored_metas(scored@) =~= positive_metas(ps.take(i + 1), q));
            }
        } else {
            assert(scored_metas(scored@) =~= positive_metas(ps.take(i + 1), q));
        }
        i = i + 1;
    }
    proof {
        assert(ps.take(n as int) =~= ps);
    }
    // Order by descending score, ties keeping their relative order.
    let m = scored.len();
    let mut ordered: Vec<Scored> = Vec::new();
    let mut a: usize = 0;
    while a < m
        invariant
            m == scored@.len(),
            ql@ == q,
            a <= m,
            forall|k: int|
                0 <= k < scored@.len() ==> (#[trigger] scored@[k].score) as int == compute_score_of(
                    scored@[k].meta@,
                    q,
                ) && scored@[k].score > 0,
            scored_metas(ordered@).to_multiset() == scored_metas(scored@.take(a as int)).to_multiset(),
            scored_metas(ordered@) == ranked_metas(scored_metas(scored@.take(a as int)), q),
            forall|k: int|
                0 <= k < ordered@.len() ==> (#[trigger] ordered@[k].score) as int
                    == compute_score_of(ordered@[k].meta@, q) && ordered@[k].score > 0,
            forall|x: int, y: int|
                0 <= x < y < ordered@.len() ==> (#[trigger] ordered@[x].score)
                    >= (#[trigger] ordered@[y].score),
        decreases m - a,
    {
        proof {
            assert(scored@.take(a + 1).drop_last() =~= scored@.take(a as int));
            assert(scored@.take(a + 1).last() == scored@[a as int]);
        }
        let item_score = scored[a].score;
        let item = Scored { score: item_score, meta: scored[a].meta.duplicate() };
        let ghost im = item.meta@;
        assert(im == scored@[a as int].meta@);
        let mut pos: usize = 0;
        while pos < ordered.len() && ordered[pos].score >= item_score
            invariant
                pos <= ordered@.len(),
                forall|k: int| 0 <= k < pos ==> (#[trigger] ordered@[k].score) >= item_score,
            decreases ordered@.len() - pos,
        {
            pos = pos + 1;
        }
        let ghost before = ordered@;
        ordered.insert(pos, item);
        proof {
            assert(forall|k: int| 0 <= k < pos ==> ordered@[k] == before[k]);
            assert(forall|k: int|
                pos < k < ordered@.len() ==> ordered@[k] == before[k - 1]);
            assert(ordered@[pos as int].score == item_score && ordered@[pos as int].meta@ == im);
            assert(scored_metas(ordered@) =~= scored_metas(before).insert(pos as int, im));
            vstd::seq_lib::to_multiset_insert(scored_metas(before), pos as int, im);
            let pre = scored_metas(scored@.take(a as int));
            assert(scored_metas(scored@.take(a + 1)) =~= pre.push(im));
            vstd::seq_lib::to_multiset_build(pre, im);
            assert(scored_metas(ordered@).to_multiset() == scored_metas(scored@.take(
                a + 1,
            )).to_multiset());
            // The insertion point is the first position scoring below the
            // new entry, so the result is the stable descending order.
            assert(item_score as int == compute_score_of(im, q));
            assert forall|k: int|
                0 <= k < pos implies compute_score_of(#[trigger] scored_metas(before)[k], q)
                >= compute_score_of(im, q) by {
                assert(scored_metas(before)[k] == before[k].meta@);
                assert(before[k].score >= item_score);
            }
            if pos < before.len() {
                assert(scored_metas(before)[pos as int] == before[pos as int].meta@);
                assert(before[pos as int].score < item_score);
            }
            lemma_insert_ranked_at(scored_metas(before), im, q, pos as int);
            let sm_next = scored_metas(scored@.take(a + 1));
            assert(sm_next.drop_last() =~= pre);
            assert(sm_next.last() == im);
            assert(ranked_metas(sm_next, q) == insert_ranked(ranked_metas(pre, q), im, q));
            assert(scored_metas(ordered@) == ranked_metas(sm_next, q));
        }
        a = a + 1;
    }
    proof {
        assert(scored@.take(m as int) =~= scored@);
    }
    // Strip the scores.
    let w = ordered.len();
    let mut out: Vec<PromptMetadata> = Vec::new();
    let mut b: usize = 0;
    while b < w
        invariant
            w == ordered@.len(),
            ql@ == q,
            b <= w,
            out@.len() == b,
            forall|k: int| 0 <= k < b ==> #[trigger] metas_of(out@)[k] == scored_metas(ordered@)[k],
            forall|k: int|
                0 <= k < ordered@.len() ==> (#[trigger] ordered@[k].score) as int
                    == compute_score_of(ordered@[k].meta@, q) && ordered@[k].score > 0,
            forall|x: int, y: int|
                0 <= x < y < ordered@.len() ==> (#[trigger] ordered@[x].score)
                    >= (#[trigger] ordered@[y].score),
        decreases w - b,
    {
        let ghost out0 = out@;
        out.push(ordered[b].meta.duplicate());
        proof {
            assert(forall|k: int|
                0 <= k < b ==> #[trigger] metas_of(out@)[k] == metas_of(out0)[k]);
            assert(metas_of(out@)[b as int] == ordered@[b as int].meta@);
        }
        b = b + 1;
    }
    proof {
        assert(metas_of(out@) =~= scored_metas(ordered@));
        assert(metas_of(out@).to_multiset() == positive_metas(ps, q).to_multiset());
        assert(metas_of(out@) == ranked_metas(positive_metas(ps, q), q));
        assert forall|x: int, y: int|
            0 <= x < y < out@.len() implies compute_score_of(#[trigger] metas_of(out@)[x], q)
            >= compute_score_of(#[trigger] metas_of(out@)[y], q) by {
            assert(metas_of(out@)[x] == ordered@[x].meta@);
            assert(metas_of(out@)[y] == ordered@[y].meta@);
            assert(ordered@[x].score >= ordered@[y].score);
        }
        assert forall|x: int|
            0 <= x < out@.len() implies compute_score_of(#[trigger] metas_of(out@)[x], q) > 0 by {
            assert(metas_of(out@)[x] == ordered@[x].meta@);
            assert(ordered@[x].score > 0);
        }
    }
    out
}

} // verus!
