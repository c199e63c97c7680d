use vstd::prelude::*;

verus! {

broadcast use vstd::seq_lib::lemma_seq_contains_after_push;

/// The whitespace-separated words of a text, in order.
pub uninterp spec fn words_of(s: Seq<char>) -> Seq<Seq<char>>;

/// The texts held by a sequence of strings.
pub open spec fn texts(v: Seq<String>) -> Seq<Seq<char>> {
    v.map_values(|w: String| w@)
}

/// How two sets of words overlap: the words in both, in the first only, and
/// in the second only.
#[derive(Clone, Copy, Debug, PartialEq, Eq)]
pub struct Overlap {
    pub common: usize,
    pub first_only: usize,
    pub second_only: usize,
}

impl Overlap {
    /// The number of distinct words on either side.
    pub open spec fn union_len(self) -> int {
        self.common + self.first_only + self.second_only
    }

    /// The Jaccard index, common words over all words, as a numerator and a
    /// positive denominator; zero where there are no words at all.
    pub fn jaccard(&self) -> (r: (u128, u128))
        ensures
            self.union_len() == 0 ==> r.0 == 0 && r.1 == 1,
            self.union_len() > 0 ==> r.0 == self.common && r.1 == self.union_len(),
    {
        let union: u128 = self.common as u128 + self.first_only as u128 + self.second_only as u128;
        if union == 0 {
            (0, 1)
        } else {
            (self.common as u128, union)
        }
    }
}

/// `o` counts the overlap of the sets `a` and `b`.
pub open spec fn counts_overlap(o: Overlap, a: Set<Seq<char>>, b: Set<Seq<char>>) -> bool {
    &&& o.common == a.intersect(b).len()
    &&& o.first_only == a.difference(b).len()
    &&& o.second_only == b.difference(a).len()
}

/// Relies on str::split_whitespace: the words of a text, split at runs of
/// Unicode white space; an empty text has none.
#[verifier::external_body]
fn split_words(s: &str) -> (r: Vec<String>)
    ensures
        texts(r@) == words_of(s@),
        s@.len() == 0 ==> r@.len() == 0,
{
    s.split_whitespace().map(String::from).collect()
}

/// Whether `w` is among the strings of `v`.
fn holds_text(v: &Vec<String>, w: &String) -> (r: bool)
    ensures
        r == texts(v@).contains(w@),
{
    let mut i: usize = 0;
    while i < v.len()
        invariant
            i <= v.len(),
            forall|k: int| 0 <= k < i ==> v@[k]@ != w@,
        decreases v.len() - i,
    {
        if v[i] == *w {
            assert(texts(v@)[i as int] == w@);
            return true;
        }
        i += 1;
    }
    proof {
        if texts(v@).contains(w@) {
            let k = choose|k: int| 0 <= k < texts(v@).len() && texts(v@)[k] == w@;
            assert(v@[k]@ == w@);
        }
    }
    false
}

/// The strings of `v`, each once, in the order of their first occurrence.
fn distinct(v: &Vec<String>) -> (r: Vec<String>)
    ensures
        texts(r@).no_duplicates(),
        texts(r@).to_set() == texts(v@).to_set(),
{
    let mut r: Vec<String> = Vec::new();
    let mut i: usize = 0;
    while i < v.len()
        invariant
            i <= v.len(),
            texts(r@).no_duplicates(),
            forall|w: Seq<char>|
                texts(r@).contains(w) <==> texts(v@).subrange(0, i as int).contains(w),
        decreases v.len() - i,
    {
        let ghost before = texts(r@);
        let ghost seen = texts(v@).subrange(0, i as int);
        let ghost next = texts(v@).subrange(0, i + 1);
        assert(next =~= seen.push(v@[i as int]@));
        if !holds_text(&r, &v[i]) {
            r.push(v[i].clone());
            assert(texts(r@) =~= before.push(v@[i as int]@));
        }
        i += 1;
    }
    assert(texts(v@).subrange(0, v.len() as int) =~= texts(v@));
    assert(texts(r@).to_set() =~= texts(v@).to_set());
    r
}

/// Splits the distinct strings of `x` by whether `y` holds them: how many it
/// holds, and how many it does not.
fn split_counts(x: &Vec<String>, y: &Vec<String>) -> (r: (usize, usize))
    requires
        texts(x@).no_duplicates(),
    ensures
        r.0 == texts(x@).to_set().intersect(texts(y@).to_set()).len(),
        r.1 == texts(x@).to_set().difference(texts(y@).to_set()).len(),
{
    let ghost sx = texts(x@);
    let ghost sy = texts(y@);
    let ghost mut cs: Seq<Seq<char>> = Seq::empty();
    let ghost mut es: Seq<Seq<char>> = Seq::empty();
    let mut inside: usize = 0;
    let mut outside: usize = 0;
    let mut j: usize = 0;
    while j < x.len()
        invariant
            sx == texts(x@),
            sy == texts(y@),
            sx.no_duplicates(),
            j <= x.len(),
            inside == cs.len(),
            outside == es.len(),
            inside + outside == j,
            cs.no_duplicates(),
            es.no_duplicates(),
            forall|w: Seq<char>| cs.contains(w) <==> (sx.subrange(0, j as int).contains(w) && sy.contains(w)),
            forall|w: Seq<char>| es.contains(w) <==> (sx.subrange(0, j as int).contains(w) && !sy.contains(w)),
        decreases x.len() - j,
    {
        let ghost w = sx[j as int];
        assert(sx.subrange(0, j + 1) =~= sx.subrange(0, j as int).push(w));
        assert(!sx.subrange(0, j as int).contains(w)) by {
            if sx.subrange(0, j as int).contains(w) {
                let k = choose|k: int| 0 <= k < j && sx.subrange(0, j as int)[k] == w;
                assert(sx[k] == sx[j as int]);
            }
        }
        if holds_text(y, &x[j]) {
            inside += 1;
            proof {
                cs = cs.push(w);
            }
        } else {
            outside += 1;
            proof {
                es = es.push(w);
            }
        }
        j += 1;
    }
    proof {
        assert(sx.subrange(0, x.len() as int) =~= sx);
        assert(cs.to_set() =~= sx.to_set().intersect(sy.to_set()));
        assert(es.to_set() =~= sx.to_set().difference(sy.to_set()));
        cs.unique_seq_to_set();
        es.unique_seq_to_set();
    }
    (inside, outside)
}

/// How the strings of `a` and of `b` overlap, each string counted once.
pub fn overlap_counts(a: &Vec<String>, b: &Vec<String>) -> (r: Overlap)
    ensures
        counts_overlap(r, texts(a@).to_set(), texts(b@).to_set()),
{
    let da = distinct(a);
    let db = distinct(b);
    let (common, first_only) = split_counts(&da, &db);
    let (_, second_only) = split_counts(&db, &da);
    Overlap { common, first_only, second_only }
}

/// How the words of two texts overlap, each word counted once.
pub fn word_overlap(text1: &str, text2: &str) -> (r: Overlap)
    ensures
        counts_overlap(r, words_of(text1@).to_set(), words_of(text2@).to_set()),
{
    let w1 = split_words(text1);
    let w2 = split_words(text2);
    overlap_counts(&w1, &w2)
}

} // verus!
