//! Hybrid search: the fusion of the semantic and the keyword result lists
//! into one candidate per chunk, with the chunk's rank in each list.
//!
//! The scores that rank the candidates afterwards are floating point and
//! computed by the caller from these ranks.

use vstd::prelude::*;

verus! {

/// A search hit: chunk id, document id, chunk text.
pub type Hit = (i64, String, String);

/// A chunk found by either search, with its 1-based rank in each list.
#[derive(Debug)]
pub struct CandidateChunk {
    pub chunk_id: i64,
    pub document_id: String,
    pub chunk_content: String,
    pub semantic_rank: Option<usize>,
    pub grep_rank: Option<usize>,
}

/// The chunk ids of a hit list, in order.
pub open spec fn hit_ids(hits: Seq<Hit>) -> Seq<i64> {
    hits.map_values(|h: Hit| h.0)
}

/// The chunk ids of the candidates, in order.
pub open spec fn fused_ids(out: Seq<CandidateChunk>) -> Seq<i64> {
    out.map_values(|c: CandidateChunk| c.chunk_id)
}

/// The last position of `id` in `ids`.
pub open spec fn last_pos(ids: Seq<i64>, id: i64) -> Option<int>
    decreases ids.len(),
{
    if ids.len() == 0 {
        None
    } else if ids.last() == id {
        Some(ids.len() - 1)
    } else {
        last_pos(ids.drop_last(), id)
    }
}

/// The first position of `id` in `ids`.
pub open spec fn first_pos(ids: Seq<i64>, id: i64) -> Option<int>
    decreases ids.len(),
{
    if ids.len() == 0 {
        None
    } else {
        match first_pos(ids.drop_last(), id) {
            Some(p) => Some(p),
            None => if ids.last() == id {
                Some(ids.len() - 1)
            } else {
                None
            },
        }
    }
}

/// The 1-based rank of `id` in a list: that of its last occurrence.
pub open spec fn rank_of(ids: Seq<i64>, id: i64) -> Option<int> {
    match last_pos(ids, id) {
        Some(p) => Some(p + 1),
        None => None,
    }
}

pub open spec fn opt_rank(o: Option<usize>) -> Option<int> {
    match o {
        Some(v) => Some(v as int),
        None => None,
    }
}

/// What a fused candidate holds: its rank in each list, and the document
/// and text of its last semantic hit, or else of its first keyword hit.
pub open spec fn fused_entry(c: CandidateChunk, semantic: Seq<Hit>, grep: Seq<Hit>) -> bool {
    &&& opt_rank(c.semantic_rank) == rank_of(hit_ids(semantic), c.chunk_id)
    &&& opt_rank(c.grep_rank) == rank_of(hit_ids(grep), c.chunk_id)
    &&& match last_pos(hit_ids(semantic), c.chunk_id) {
        Some(p) => c.document_id@ == semantic[p].1@ && c.chunk_content@ == semantic[p].2@,
        None => match first_pos(hit_ids(grep), c.chunk_id) {
            Some(q) => c.document_id@ == grep[q].1@ && c.chunk_content@ == grep[q].2@,
            None => false,
        },
    }
}

/// The fused candidates: exactly one per chunk id found by either search.
pub open spec fn fused(out: Seq<CandidateChunk>, semantic: Seq<Hit>, grep: Seq<Hit>) -> bool {
    &&& forall|k: int| 0 <= k < out.len() ==> fused_entry(#[trigger] out[k], semantic, grep)
    &&& forall|a: int, b: int| 0 <= a < b < out.len() ==> out[a].chunk_id != out[b].chunk_id
    &&& forall|id: i64|
        fused_ids(out).contains(id) <==> (hit_ids(semantic).contains(id) || hit_ids(grep).contains(
            id,
        ))
}

proof fn lemma_last_pos_push(ids: Seq<i64>, x: i64, id: i64)
    ensures
        last_pos(ids.push(x), id) == if x == id {
            Some(ids.len() as int)
        } else {
            last_pos(ids, id)
        },
{
    assert(ids.push(x).drop_last() == ids);
}

proof fn lemma_first_pos_push(ids: Seq<i64>, x: i64, id: i64)
    ensures
        first_pos(ids.push(x), id) == match first_pos(ids, id) {
            Some(p) => Some(p),
            None => if x == id {
                Some(ids.len() as int)
            } else {
                None
            },
        },
{
    assert(ids.push(x).drop_last() == ids);
}

proof fn lemma_last_pos(ids: Seq<i64>, id: i64)
    ensures
        match last_pos(ids, id) {
            Some(p) => 0 <= p < ids.len() && ids[p] == id,
            None => !ids.contains(id),
        },
    decreases ids.len(),
{
    if ids.len() > 0 {
        lemma_last_pos(ids.drop_last(), id);
        if ids.last() != id && last_pos(ids.drop_last(), id) is None {
            assert forall|k: int| 0 <= k < ids.len() implies ids[k] != id by {
                if k < ids.len() - 1 {
                    assert(ids.drop_last()[k] == ids[k]);
                }
            }
        }
    }
}

proof fn lemma_first_pos(ids: Seq<i64>, id: i64)
    ensures
        match first_pos(ids, id) {
            Some(p) => 0 <= p < ids.len() && ids[p] == id,
            None => !ids.contains(id),
        },
    decreases ids.len(),
{
    if ids.len() > 0 {
        lemma_first_pos(ids.drop_last(), id);
        if first_pos(ids.drop_last(), id) is None && ids.last() != id {
            assert forall|k: int| 0 <= k < ids.len() implies ids[k] != id by {
                if k < ids.len() - 1 {
                    assert(ids.drop_last()[k] == ids[k]);
                }
            }
        }
    }
}

/// The position of the candidate for `id`, if there is one.
fn find_candidate(out: &Vec<CandidateChunk>, id: i64) -> (r: Option<usize>)
    ensures
        match r {
            Some(k) => k < out@.len() && out@[k as int].chunk_id == id,
            None => !fused_ids(out@).contains(id),
        },
{
    let mut k: usize = 0;
    while k < out.len()
        invariant
            k <= out@.len(),
            forall|j: int| 0 <= j < k ==> out@[j].chunk_id != id,
        decreases out.len() - k,
    {
        if out[k].chunk_id == id {
            return Some(k);
        }
        k = k + 1;
    }
    assert forall|j: int| 0 <= j < fused_ids(out@).len() implies fused_ids(out@)[j] != id by {
        assert(fused_ids(out@)[j] == out@[j].chunk_id);
    }
    None
}


fn copy_string(s: &String) -> (r: String)
    ensures
        r@ == s@,
{
    s.clone()
}

/// Fuses the semantic and keyword hit lists (see [`fused`]): one candidate
/// per chunk, semantic hits first in the order they come, then the chunks
/// found only by keyword.
pub fn fuse_results(semantic: &Vec<Hit>, grep: &Vec<Hit>) -> (out: Vec<CandidateChunk>)
    ensures
        fused(out@, semantic@, grep@),
{
    let mut out: Vec<CandidateChunk> = Vec::new();
    let ghost sids = hit_ids(semantic@);
    let ghost gids = hit_ids(grep@);
    let ghost empty = Seq::<Hit>::empty();
    let mut i: usize = 0;
    assert(hit_ids(semantic@.take(0)) =~= Seq::<i64>::empty());
    assert(fused_ids(out@) =~= Seq::<i64>::empty());
    while i < semantic.len()
        invariant
            i <= semantic@.len(),
            sids == hit_ids(semantic@),
            empty == Seq::<Hit>::empty(),
            fused(out@, semantic@.take(i as int), empty),
        decreases semantic.len() - i,
    {
        let ghost pre = semantic@.take(i as int);
        let ghost post = semantic@.take(i + 1);
        assert(post == pre.push(semantic@[i as int]));
        assert(hit_ids(post) == hit_ids(pre).push(semantic@[i as int].0));
        assert(hit_ids(empty) =~= Seq::<i64>::empty());
        let id = semantic[i].0;
        let c = CandidateChunk {
            chunk_id: id,
            document_id: copy_string(&semantic[i].1),
            chunk_content: copy_string(&semantic[i].2),
            semantic_rank: Some(i + 1),
            grep_rank: None,
        };
        proof {
            lemma_last_pos_push(hit_ids(pre), id, id);
        }
        let ghost before = out@;
        match find_candidate(&out, id) {
            Some(k) => {
                assert(fused_ids(before)[k as int] == id);
                out.set(k, c);
                assert(fused_ids(out@) =~= fused_ids(before));
            },
            None => {
                out.push(c);
                assert(fused_ids(out@) =~= fused_ids(before).push(id));
                assert(fused_ids(out@)[before.len() as int] == id);
            },
        }
        assert forall|k: int| 0 <= k < out@.len() implies fused_entry(#[trigger] out@[k], post, empty) by {
            lemma_last_pos_push(hit_ids(pre), id, out@[k].chunk_id);
            lemma_last_pos(hit_ids(pre), out@[k].chunk_id);
            if out@[k].chunk_id != id {
                assert(out@[k] == before[k]);
                assert(fused_entry(before[k], pre, empty));
                match last_pos(hit_ids(pre), out@[k].chunk_id) {
                    Some(p) => {
                        assert(post[p] == pre[p]);
                    },
                    None => {},
                }
            }
        }
        assert forall|a: int, b: int| 0 <= a < b < out@.len() implies out@[a].chunk_id != out@[b].chunk_id by {
            if a < before.len() && b < before.len() {
                if out@[a].chunk_id == id || out@[b].chunk_id == id {
                    assert(fused_ids(before)[a] == before[a].chunk_id);
                    assert(fused_ids(before)[b] == before[b].chunk_id);
                }
            } else {
                assert(fused_ids(before)[a] == before[a].chunk_id);
            }
        }
        assert forall|x: i64| fused_ids(out@).contains(x) <==> (hit_ids(post).contains(x) || hit_ids(empty).contains(x)) by {
            if hit_ids(post).contains(x) && x != id {
                let w = choose|w: int| 0 <= w < hit_ids(post).len() && hit_ids(post)[w] == x;
                assert(hit_ids(pre)[w] == x);
            }
            if hit_ids(pre).contains(x) {
                let w = choose|w: int| 0 <= w < hit_ids(pre).len() && hit_ids(pre)[w] == x;
                assert(hit_ids(post)[w] == x);
            }
            if x == id {
                assert(hit_ids(post)[i as int] == x);
            }
            if fused_ids(out@).contains(x) && x != id {
                let w = choose|w: int| 0 <= w < fused_ids(out@).len() && fused_ids(out@)[w] == x;
                assert(fused_ids(before)[w] == x);
            }
            if fused_ids(before).contains(x) {
                let w = choose|w: int| 0 <= w < fused_ids(before).len() && fused_ids(before)[w] == x;
                assert(fused_ids(out@)[w] == x);
            }
        }
        i = i + 1;
    }
    assert(semantic@.take(semantic@.len() as int) == semantic@);
    let mut j: usize = 0;
    assert(grep@.take(0) =~= empty);
    while j < grep.len()
        invariant
            j <= grep@.len(),
            sids == hit_ids(semantic@),
            fused(out@, semantic@, grep@.take(j as int)),
        decreases grep.len() - j,
    {
        let ghost pre = grep@.take(j as int);
        let ghost post = grep@.take(j + 1);
        assert(post == pre.push(grep@[j as int]));
        assert(hit_ids(post) == hit_ids(pre).push(grep@[j as int].0));
        let id = grep[j].0;
        proof {
            lemma_last_pos_push(hit_ids(pre), id, id);
            lemma_first_pos_push(hit_ids(pre), id, id);
        }
        let ghost before = out@;
        match find_candidate(&out, id) {
            Some(k) => {
                let c = CandidateChunk {
                    chunk_id: id,
                    document_id: copy_string(&out[k].document_id),
                    chunk_content: copy_string(&out[k].chunk_content),
                    semantic_rank: out[k].semantic_rank,
                    grep_rank: Some(j + 1),
                };
                proof {
                    assert(fused_entry(before[k as int], semantic@, pre));
                    lemma_first_pos(hit_ids(pre), id);
                    lemma_last_pos(sids, id);
                    match first_pos(hit_ids(pre), id) {
                        Some(q) => {
                            assert(post[q] == pre[q]);
                        },
                        None => {},
                    }
                }
                assert(fused_ids(before)[k as int] == id);
                out.set(k, c);
                assert(fused_ids(out@) =~= fused_ids(before));
            },
            None => {
                let c = CandidateChunk {
                    chunk_id: id,
                    document_id: copy_string(&grep[j].1),
                    chunk_content: copy_string(&grep[j].2),
                    semantic_rank: None,
                    grep_rank: Some(j + 1),
                };
                proof {
                    lemma_last_pos(sids, id);
                    lemma_first_pos(hit_ids(pre), id);
                }
                out.push(c);
                assert(fused_ids(out@) =~= fused_ids(before).push(id));
                assert(fused_ids(out@)[before.len() as int] == id);
            },
        }
        assert forall|k: int| 0 <= k < out@.len() implies fused_entry(#[trigger] out@[k], semantic@, post) by {
            lemma_last_pos_push(hit_ids(pre), id, out@[k].chunk_id);
            lemma_first_pos_push(hit_ids(pre), id, out@[k].chunk_id);
            lemma_first_pos(hit_ids(pre), out@[k].chunk_id);
            if out@[k].chunk_id != id {
                assert(out@[k] == before[k]);
                assert(fused_entry(before[k], semantic@, pre));
                match first_pos(hit_ids(pre), out@[k].chunk_id) {
                    Some(q) => {
                        assert(post[q] == pre[q]);
                    },
                    None => {},
                }
            }
        }
        assert forall|a: int, b: int| 0 <= a < b < out@.len() implies out@[a].chunk_id != out@[b].chunk_id by {
            if a < before.len() && b < before.len() {
                if out@[a].chunk_id == id || out@[b].chunk_id == id {
                    assert(fused_ids(before)[a] == before[a].chunk_id);
                    assert(fused_ids(before)[b] == before[b].chunk_id);
                }
            } else {
                assert(fused_ids(before)[a] == before[a].chunk_id);
            }
        }
        assert forall|x: i64| #![trigger fused_ids(out@).contains(x)] #![trigger hit_ids(semantic@).contains(x)] #![trigger hit_ids(post).contains(x)]
            fused_ids(out@).contains(x) <==> (hit_ids(semantic@).contains(x) || hit_ids(post).contains(x)) by {
            if hit_ids(post).contains(x) && x != id {
                let w = choose|w: int| 0 <= w < hit_ids(post).len() && hit_ids(post)[w] == x;
                assert(hit_ids(pre)[w] == x);
            }
            if hit_ids(pre).contains(x) {
                let w = choose|w: int| 0 <= w < hit_ids(pre).len() && hit_ids(pre)[w] == x;
                assert(hit_ids(post)[w] == x);
            }
            if x == id {
                assert(hit_ids(post)[j as int] == x);
            }
            if fused_ids(out@).contains(x) && x != id {
                let w = choose|w: int| 0 <= w < fused_ids(out@).len() && fused_ids(out@)[w] == x;
                assert(fused_ids(before)[w] == x);
            }
            if fused_ids(before).contains(x) {
                let w = choose|w: int| 0 <= w < fused_ids(before).len() && fused_ids(before)[w] == x;
                assert(fused_ids(out@)[w] == x);
            }
        }
        assert(fused(out@, semantic@, post));
        j = j + 1;
    }
    assert(grep@.take(grep@.len() as int) == grep@);
    out
}

} // verus!
