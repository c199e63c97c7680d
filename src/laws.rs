use vstd::prelude::*;
use crate::overlap::{counts_overlap, words_of, Overlap};
use crate::ranking::{ahead, is_heading_candidate, is_note_candidate, is_top_order, selects, ChunkRef, NoteRef};

verus! {

broadcast use vstd::seq_lib::seq_to_set_is_finite;

/// A text with at least one word overlaps itself fully: every word is common
/// and none is on one side only, so the Jaccard index is one.
pub proof fn lemma_text_overlaps_itself(o: Overlap, t: Seq<char>)
    requires
        words_of(t).len() > 0,
        counts_overlap(o, words_of(t).to_set(), words_of(t).to_set()),
    ensures
        o.common > 0,
        o.first_only == 0,
        o.second_only == 0,
{
    let w = words_of(t).to_set();
    assert(w.intersect(w) =~= w);
    assert(w.difference(w) =~= Set::empty());
    assert(w.contains(words_of(t)[0]));
}

/// A text without words shares no word with any other, so the Jaccard index
/// is zero.
pub proof fn lemma_wordless_text_shares_nothing(o: Overlap, t1: Seq<char>, t2: Seq<char>)
    requires
        words_of(t1).len() == 0,
        counts_overlap(o, words_of(t1).to_set(), words_of(t2).to_set()),
    ensures
        o.common == 0,
        o.first_only == 0,
{
    let a = words_of(t1).to_set();
    let b = words_of(t2).to_set();
    assert(a =~= Set::empty());
    assert(a.intersect(b) =~= Set::empty());
    assert(a.difference(b) =~= Set::empty());
}

/// A ranking holds at most `max` entries, and their keys never increase.
pub proof fn lemma_ranking_bounded_and_sorted(keys: Seq<u64>, max: usize, r: Seq<usize>)
    requires
        is_top_order(keys, max as int, r),
    ensures
        r.len() <= max,
        forall|t: int, u: int| 0 <= t < u < r.len() ==> keys[r[t] as int] >= keys[r[u] as int],
{
    assert forall|t: int, u: int| 0 <= t < u < r.len() implies keys[r[t] as int] >= keys[
        r[u] as int
    ] by {
        assert(ahead(keys, r[t] as int, r[u] as int));
    }
}

/// Ranking the chunks that heading selection kept never yields a chunk of the
/// current note.
pub proof fn lemma_headings_skip_current_note(
    chunks: Seq<ChunkRef>,
    current_note_id: Seq<char>,
    kept: Seq<usize>,
    keys: Seq<u64>,
    max: usize,
    order: Seq<usize>,
)
    requires
        selects(kept, chunks.len() as int, |i: int| is_heading_candidate(chunks[i], current_note_id)),
        keys.len() == kept.len(),
        is_top_order(keys, max as int, order),
    ensures
        forall|t: int|
            0 <= t < order.len() ==> kept[order[t] as int] < chunks.len() && chunks[kept[order[t] as int] as int].note_id@
                != current_note_id,
{
    assert forall|t: int| 0 <= t < order.len() implies kept[order[t] as int] < chunks.len()
        && chunks[kept[order[t] as int] as int].note_id@ != current_note_id by {
        let p = order[t] as int;
        assert(0 <= p < kept.len());
        assert(is_heading_candidate(chunks[kept[p] as int], current_note_id));
    }
}

/// Ranking the notes that note selection kept never yields the current note,
/// nor a note of another workspace.
pub proof fn lemma_notes_skip_current_note(
    notes: Seq<NoteRef>,
    current: NoteRef,
    kept: Seq<usize>,
    keys: Seq<u64>,
    max: usize,
    order: Seq<usize>,
)
    requires
        selects(kept, notes.len() as int, |i: int| is_note_candidate(notes[i], current)),
        keys.len() == kept.len(),
        is_top_order(keys, max as int, order),
    ensures
        forall|t: int|
            0 <= t < order.len() ==> kept[order[t] as int] < notes.len() && notes[kept[order[t] as int] as int].id@
                != current.id@ && notes[kept[order[t] as int] as int].workspace_id@
                == current.workspace_id@,
{
    assert forall|t: int| 0 <= t < order.len() implies kept[order[t] as int] < notes.len()
        && notes[kept[order[t] as int] as int].id@ != current.id@ && notes[kept[order[t] as int] as int].workspace_id@
        == current.workspace_id@ by {
        let p = order[t] as int;
        assert(0 <= p < kept.len());
        assert(is_note_candidate(notes[kept[p] as int], current));
    }
}

} // verus!
