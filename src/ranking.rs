use vstd::prelude::*;

verus! {

broadcast use vstd::seq_lib::lemma_seq_contains_after_push;

/// Entry `p` goes before entry `q`: its key is higher, or the keys are equal
/// and `p` came first.
pub open spec fn ahead(keys: Seq<u64>, p: int, q: int) -> bool {
    keys[p] > keys[q] || (keys[p] == keys[q] && p < q)
}

/// `r` lists the positions of the best `max` entries of `keys` (all of them
/// when there are fewer), highest key first, equal keys in their given order.
pub open spec fn is_top_order(keys: Seq<u64>, max: int, r: Seq<usize>) -> bool {
    &&& r.len() == (if max < keys.len() { max } else { keys.len() as int })
    &&& forall|t: int| 0 <= t < r.len() ==> r[t] < keys.len()
    &&& forall|t: int, u: int| 0 <= t < u < r.len() ==> ahead(keys, r[t] as int, r[u] as int)
    &&& forall|p: usize, t: int|
        p < keys.len() && !r.contains(p) && 0 <= t < r.len() ==> ahead(keys, r[t] as int, p as int)
}

/// Orders entries by descending key, keeping the given order among equal
/// keys, and keeps at most `max` of them. Returns their positions.
pub fn rank_order(keys: &Vec<u64>, max: usize) -> (r: Vec<usize>)
    ensures
        is_top_order(keys@, max as int, r@),
{
    let n = keys.len();
    let mut rest: Vec<usize> = Vec::new();
    let mut i: usize = 0;
    while i < n
        invariant
            i <= n,
            n == keys.len(),
            rest.len() == i,
            forall|k: int| 0 <= k < i ==> rest[k] == k,
        decreases n - i,
    {
        rest.push(i);
        i += 1;
    }
    assert forall|p: usize| p < n implies rest@.contains(p) by {
        assert(rest@[p as int] == p);
    }
    let mut r: Vec<usize> = Vec::new();
    while r.len() < max && rest.len() > 0
        invariant
            n == keys.len(),
            r.len() <= max,
            rest.len() + r.len() == n,
            forall|k: int| 0 <= k < rest.len() ==> rest[k] < n,
            forall|k: int, l: int| 0 <= k < l < rest.len() ==> rest[k] != rest[l],
            forall|t: int| 0 <= t < r.len() ==> r[t] < n,
            forall|p: usize| p < n ==> rest@.contains(p) || r@.contains(p),
            forall|t: int, u: int| 0 <= t < u < r.len() ==> ahead(keys@, r[t] as int, r[u] as int),
            forall|t: int, k: int|
                0 <= t < r.len() && 0 <= k < rest.len() ==> ahead(
                    keys@,
                    r[t] as int,
                    rest[k] as int,
                ),
        decreases rest.len(),
    {
        let mut b: usize = 0;
        let mut k: usize = 1;
        while k < rest.len()
            invariant
                n == keys.len(),
                1 <= k <= rest.len(),
                b < k,
                forall|j: int| 0 <= j < rest.len() ==> rest[j] < n,
                forall|j: int, l: int| 0 <= j < l < rest.len() ==> rest[j] != rest[l],
                forall|j: int| 0 <= j < k && j != b ==> ahead(keys@, rest[b as int] as int, rest[j] as int),
            decreases rest.len() - k,
        {
            let c = rest[k];
            let cb = rest[b];
            if keys[c] > keys[cb] || (keys[c] == keys[cb] && c < cb) {
                b = k;
            }
            k += 1;
        }
        let ghost old_rest = rest@;
        let ghost old_r = r@;
        let chosen = rest.remove(b);
        r.push(chosen);
        proof {
            assert forall|p: usize| p < n implies rest@.contains(p) || r@.contains(p) by {
                if old_r.contains(p) {
                    let t = choose|t: int| 0 <= t < old_r.len() && old_r[t] == p;
                    assert(r@[t] == p);
                } else {
                    let k = choose|k: int| 0 <= k < old_rest.len() && old_rest[k] == p;
                    if k < b {
                        assert(rest@[k] == p);
                    } else if k > b {
                        assert(rest@[k - 1] == p);
                    } else {
                        assert(r@[old_r.len() as int] == p);
                    }
                }
            }
            assert forall|t: int, k: int|
                0 <= t < r.len() && 0 <= k < rest.len() implies ahead(
                keys@,
                r[t] as int,
                rest[k] as int,
            ) by {
                if k < b {
                    assert(rest@[k] == old_rest[k]);
                } else {
                    assert(rest@[k] == old_rest[k + 1]);
                }
            }
        }
    }
    r
}

/// What heading ranking reads of a heading chunk: the note that holds it and
/// whether it has an embedding.
#[derive(Clone, Debug)]
pub struct ChunkRef {
    pub note_id: String,
    pub has_embedding: bool,
}

/// What note ranking reads of a note: its id and its workspace.
#[derive(Clone, Debug)]
pub struct NoteRef {
    pub id: String,
    pub workspace_id: String,
}

/// A chunk is compared with the current heading when it lies in another note
/// and has an embedding.
pub open spec fn is_heading_candidate(c: ChunkRef, current_note_id: Seq<char>) -> bool {
    c.note_id@ != current_note_id && c.has_embedding
}

/// A note is scored against the current note when it is another note of the
/// same workspace.
pub open spec fn is_note_candidate(n: NoteRef, current: NoteRef) -> bool {
    n.id@ != current.id@ && n.workspace_id@ == current.workspace_id@
}

/// `r` lists, in increasing order, exactly the positions below `n` that
/// satisfy `keep`.
pub open spec fn selects(r: Seq<usize>, n: int, keep: spec_fn(int) -> bool) -> bool {
    &&& forall|t: int, u: int| 0 <= t < u < r.len() ==> r[t] < r[u]
    &&& forall|t: int| 0 <= t < r.len() ==> r[t] < n && keep(r[t] as int)
    &&& forall|i: usize| i < n && keep(i as int) ==> r.contains(i)
}

/// The positions of the chunks that are compared with a heading of the note
/// `current_note_id`.
pub fn heading_candidates(chunks: &Vec<ChunkRef>, current_note_id: &String) -> (r: Vec<usize>)
    ensures
        selects(r@, chunks.len() as int, |i: int| is_heading_candidate(chunks@[i], current_note_id@)),
{
    let mut r: Vec<usize> = Vec::new();
    let mut i: usize = 0;
    while i < chunks.len()
        invariant
            i <= chunks.len(),
            forall|t: int, u: int| 0 <= t < u < r.len() ==> r[t] < r[u],
            forall|t: int| 0 <= t < r.len() ==> r[t] < i && is_heading_candidate(chunks@[r[t] as int], current_note_id@),
            forall|j: usize| j < i && is_heading_candidate(chunks@[j as int], current_note_id@) ==> r@.contains(j),
        decreases chunks.len() - i,
    {
        let c = &chunks[i];
        if c.has_embedding && !(c.note_id == *current_note_id) {
            r.push(i);
            assert(r@[r.len() - 1] == i);
        }
        i += 1;
    }
    r
}

/// The positions of the notes that are scored against `current`.
pub fn note_candidates(notes: &Vec<NoteRef>, current: &NoteRef) -> (r: Vec<usize>)
    ensures
        selects(r@, notes.len() as int, |i: int| is_note_candidate(notes@[i], *current)),
{
    let mut r: Vec<usize> = Vec::new();
    let mut i: usize = 0;
    while i < notes.len()
        invariant
            i <= notes.len(),
            forall|t: int, u: int| 0 <= t < u < r.len() ==> r[t] < r[u],
            forall|t: int| 0 <= t < r.len() ==> r[t] < i && is_note_candidate(notes@[r[t] as int], *current),
            forall|j: usize| j < i && is_note_candidate(notes@[j as int], *current) ==> r@.contains(j),
        decreases notes.len() - i,
    {
        let n = &notes[i];
        if !(n.id == current.id) && n.workspace_id == current.workspace_id {
            r.push(i);
            assert(r@[r.len() - 1] == i);
        }
        i += 1;
    }
    r
}

} // verus!
