use crate::classify::{
    categorise, classify, classify_decomposed, lemma_spelling_keeps_class, letter_info, nfd_all,
    same_spelling, Descriptor,
};
use crate::segment::{grapheme_clusters, graphemes};
use vstd::prelude::*;
use vstd::seq_lib::lemma_flatten_concat;
use vstd::string::*;

verus! {

/// Vowel pairs that form one nucleus: `a` stands just before `b` in the word.
pub open spec fn diphthong(a: char, b: char) -> bool {
    (a == 'α' && b == 'ι') ||
    (a == 'ε' && b == 'ι') ||
    (a == 'ο' && b == 'ι') ||
    (a == 'υ' && b == 'ι') ||
    (a == 'α' && b == 'υ') ||
    (a == 'ε' && b == 'υ') ||
    (a == 'ο' && b == 'υ') ||
    (a == 'η' && b == 'υ')
}

/// Consonant pairs that may open a syllable together: `a` stands just before `b`.
pub open spec fn joinable(a: char, b: char) -> bool {
    (a == 'β' && b == 'δ') ||
    (a == 'β' && b == 'λ') ||
    (a == 'β' && b == 'ρ') ||
    (a == 'γ' && b == 'λ') ||
    (a == 'γ' && b == 'ν') ||
    (a == 'γ' && b == 'ρ') ||
    (a == 'δ' && b == 'ρ') ||
    (a == 'θ' && b == 'λ') ||
    (a == 'θ' && b == 'ν') ||
    (a == 'θ' && b == 'ρ') ||
    (a == 'κ' && b == 'λ') ||
    (a == 'κ' && b == 'ν') ||
    (a == 'κ' && b == 'ρ') ||
    (a == 'κ' && b == 'τ') ||
    (a == 'μ' && b == 'ν') ||
    (a == 'π' && b == 'λ') ||
    (a == 'π' && b == 'ν') ||
    (a == 'π' && b == 'ρ') ||
    (a == 'π' && b == 'τ') ||
    (a == 'σ' && b == 'β') ||
    (a == 'σ' && b == 'θ') ||
    (a == 'σ' && b == 'κ') ||
    (a == 'σ' && b == 'μ') ||
    (a == 'σ' && b == 'π') ||
    (a == 'σ' && b == 'τ') ||
    (a == 'σ' && b == 'φ') ||
    (a == 'σ' && b == 'χ') ||
    (a == 'τ' && b == 'ρ') ||
    (a == 'φ' && b == 'θ') ||
    (a == 'φ' && b == 'λ') ||
    (a == 'φ' && b == 'ρ') ||
    (a == 'χ' && b == 'λ') ||
    (a == 'χ' && b == 'ρ')
}

/// Whether the vowels `a` then `b` form a diphthong.
pub fn is_dipthong(a: char, b: char) -> (r: bool)
    ensures
        r == diphthong(a, b),
{
    (a == 'α' && b == 'ι') ||
    (a == 'ε' && b == 'ι') ||
    (a == 'ο' && b == 'ι') ||
    (a == 'υ' && b == 'ι') ||
    (a == 'α' && b == 'υ') ||
    (a == 'ε' && b == 'υ') ||
    (a == 'ο' && b == 'υ') ||
    (a == 'η' && b == 'υ')
}

/// Whether the consonants `a` then `b` may open one syllable together.
pub fn joinable_consonant(a: char, b: char) -> (r: bool)
    ensures
        r == joinable(a, b),
{
    (a == 'β' && b == 'δ') ||
    (a == 'β' && b == 'λ') ||
    (a == 'β' && b == 'ρ') ||
    (a == 'γ' && b == 'λ') ||
    (a == 'γ' && b == 'ν') ||
    (a == 'γ' && b == 'ρ') ||
    (a == 'δ' && b == 'ρ') ||
    (a == 'θ' && b == 'λ') ||
    (a == 'θ' && b == 'ν') ||
    (a == 'θ' && b == 'ρ') ||
    (a == 'κ' && b == 'λ') ||
    (a == 'κ' && b == 'ν') ||
    (a == 'κ' && b == 'ρ') ||
    (a == 'κ' && b == 'τ') ||
    (a == 'μ' && b == 'ν') ||
    (a == 'π' && b == 'λ') ||
    (a == 'π' && b == 'ν') ||
    (a == 'π' && b == 'ρ') ||
    (a == 'π' && b == 'τ') ||
    (a == 'σ' && b == 'β') ||
    (a == 'σ' && b == 'θ') ||
    (a == 'σ' && b == 'κ') ||
    (a == 'σ' && b == 'μ') ||
    (a == 'σ' && b == 'π') ||
    (a == 'σ' && b == 'τ') ||
    (a == 'σ' && b == 'φ') ||
    (a == 'σ' && b == 'χ') ||
    (a == 'τ' && b == 'ρ') ||
    (a == 'φ' && b == 'θ') ||
    (a == 'φ' && b == 'λ') ||
    (a == 'φ' && b == 'ρ') ||
    (a == 'χ' && b == 'λ') ||
    (a == 'χ' && b == 'ρ')
}

/// Where the right-to-left scan stands within the syllable it is building.
#[derive(Debug, Clone, Copy, PartialEq, Eq, Structural)]
pub enum Phase {
    /// Reading the trailing consonants, before the vowel nucleus.
    Ending,
    /// In the vowel nucleus.
    Starting,
    /// In the onset consonants before the nucleus.
    Restarting,
}

/// Model of the scan: the phase, the grapheme index where the syllable being
/// built ends, the last two letters read, and the cuts found so far (grapheme
/// indices where a syllable starts, from right to left).
pub struct ScanState {
    pub phase: Phase,
    pub end: int,
    pub prev: char,
    pub prev_prev: char,
    pub cuts: Seq<int>,
}

pub open spec fn initial_state(n: int) -> ScanState {
    ScanState { phase: Phase::Ending, end: n, prev: '\0', prev_prev: '\0', cuts: Seq::empty() }
}

/// Cut before grapheme `p`, unless that would leave an empty syllable.
pub open spec fn cut(s: ScanState, p: int) -> ScanState {
    if p < s.end {
        ScanState { phase: s.phase, end: p, prev: s.prev, prev_prev: s.prev_prev, cuts: s.cuts.push(p) }
    } else {
        s
    }
}

pub open spec fn with_phase(s: ScanState, ph: Phase) -> ScanState {
    ScanState { phase: ph, end: s.end, prev: s.prev, prev_prev: s.prev_prev, cuts: s.cuts }
}

pub open spec fn with_prev(s: ScanState, c: char, pp: char) -> ScanState {
    ScanState { phase: s.phase, end: s.end, prev: c, prev_prev: pp, cuts: s.cuts }
}

/// One step of the scan, reading grapheme `i` with descriptor `d`.
pub open spec fn step(s: ScanState, i: int, d: Descriptor) -> ScanState {
    let c = d.0;
    let vowel = d.2;
    let last = i + 1;
    if c == '\0' {
        with_prev(with_phase(cut(cut(s, last), i), Phase::Ending), c, s.prev_prev)
    } else {
        let t = match s.phase {
            Phase::Ending => {
                if vowel {
                    with_phase(if d.5 { cut(s, i) } else { s }, Phase::Starting)
                } else {
                    s
                }
            },
            Phase::Starting => {
                if diphthong(c, s.prev) {
                    s
                } else if vowel {
                    cut(s, last)
                } else {
                    with_phase(s, Phase::Restarting)
                }
            },
            Phase::Restarting => {
                if vowel {
                    with_phase(cut(s, last), Phase::Starting)
                } else if c == 'σ' && s.prev == 'τ' && s.prev_prev == 'ρ' {
                    with_phase(cut(s, i), Phase::Ending)
                } else if joinable(c, s.prev) {
                    with_prev(s, s.prev, s.prev)
                } else {
                    with_phase(cut(s, last), Phase::Ending)
                }
            },
        };
        with_prev(t, c, t.prev_prev)
    }
}

/// State of the scan once graphemes `k..ds.len()` have been read, right to left.
pub open spec fn scan_from(ds: Seq<Descriptor>, k: int) -> ScanState
    decreases ds.len() - k,
{
    if k < 0 || k >= ds.len() {
        initial_state(ds.len() as int)
    } else {
        step(scan_from(ds, k + 1), k, ds[k])
    }
}

/// The grapheme indices where syllables start, from right to left.
pub open spec fn syllable_cuts(gs: Seq<Seq<char>>) -> Seq<int> {
    let ds = gs.map_values(|g: Seq<char>| classify(g));
    cut(scan_from(ds, 0), 0).cuts
}

/// Index just past the syllable that starts at cut `q`.
pub open spec fn cut_stop(c: Seq<int>, n: int, q: int) -> int {
    if q == 0 { n } else { c[q - 1] }
}

/// The syllable that starts at cut `q`.
pub open spec fn piece(gs: Seq<Seq<char>>, c: Seq<int>, q: int) -> Seq<char> {
    gs.subrange(c[q], cut_stop(c, gs.len() as int, q)).flatten()
}

/// The syllables of a word given as its grapheme clusters, left to right.
pub open spec fn syllables_of(gs: Seq<Seq<char>>) -> Seq<Seq<char>> {
    let c = syllable_cuts(gs);
    Seq::new(c.len(), |j: int| piece(gs, c, c.len() - 1 - j))
}

/// The cuts run strictly downwards within `k..n`, and `end` is the last of them.
pub open spec fn scan_wf(s: ScanState, k: int, n: int) -> bool {
    &&& k <= s.end <= n
    &&& s.cuts.len() == 0 ==> s.end == n
    &&& s.cuts.len() > 0 ==> s.end == s.cuts.last()
    &&& forall|j: int| 0 <= j < s.cuts.len() ==> k <= #[trigger] s.cuts[j] < n
    &&& forall|a: int, b: int| 0 <= a < b < s.cuts.len() ==> s.cuts[a] > s.cuts[b]
}

proof fn lemma_cut_wf(s: ScanState, p: int, k: int, n: int)
    requires
        scan_wf(s, k, n),
        p >= k,
    ensures
        scan_wf(cut(s, p), k, n),
{
}

proof fn lemma_step_wf(s: ScanState, i: int, d: Descriptor, n: int)
    requires
        scan_wf(s, i + 1, n),
        0 <= i,
    ensures
        scan_wf(step(s, i, d), i, n),
{
    assert(scan_wf(s, i, n));
    lemma_cut_wf(s, i + 1, i, n);
    lemma_cut_wf(s, i, i, n);
    lemma_cut_wf(cut(s, i + 1), i, i, n);
}

proof fn lemma_scan_wf(ds: Seq<Descriptor>, k: int)
    requires
        0 <= k <= ds.len(),
    ensures
        scan_wf(scan_from(ds, k), k, ds.len() as int),
    decreases ds.len() - k,
{
    if k < ds.len() {
        lemma_scan_wf(ds, k + 1);
        lemma_step_wf(scan_from(ds, k + 1), k, ds[k], ds.len() as int);
    }
}

/// The final cuts run strictly downwards below `n` and end at 0.
pub open spec fn cuts_wf(c: Seq<int>, n: int) -> bool {
    &&& n == 0 ==> c.len() == 0
    &&& n > 0 ==> c.len() > 0 && c.last() == 0
    &&& forall|j: int| 0 <= j < c.len() ==> 0 <= #[trigger] c[j] < n
    &&& forall|a: int, b: int| 0 <= a < b < c.len() ==> c[a] > c[b]
}

proof fn lemma_cuts_wf(gs: Seq<Seq<char>>)
    ensures
        cuts_wf(syllable_cuts(gs), gs.len() as int),
{
    let ds = gs.map_values(|g: Seq<char>| classify(g));
    lemma_scan_wf(ds, 0);
    lemma_cut_wf(scan_from(ds, 0), 0, 0, gs.len() as int);
}

/// The running scan: the executable counterpart of `ScanState`.
struct Scanner {
    phase: Phase,
    end: usize,
    prev: char,
    prev_prev: char,
    cuts: Vec<usize>,
}

impl View for Scanner {
    type V = ScanState;

    closed spec fn view(&self) -> ScanState {
        ScanState {
            phase: self.phase,
            end: self.end as int,
            prev: self.prev,
            prev_prev: self.prev_prev,
            cuts: self.cuts@.map_values(|x: usize| x as int),
        }
    }
}

impl Scanner {
    fn cut(&mut self, p: usize)
        ensures
            final(self)@ == cut(old(self)@, p as int),
    {
        if p < self.end {
            self.cuts.push(p);
            self.end = p;
            assert(self.cuts@.map_values(|x: usize| x as int) =~= old(self)@.cuts.push(p as int));
        }
    }

    fn step(&mut self, i: usize, c: char, vowel: bool, diaeresis: bool, Ghost(d): Ghost<Descriptor>)
        requires
            i < usize::MAX,
            d.0 == c,
            d.2 == vowel,
            d.5 == diaeresis,
        ensures
            final(self)@ == step(old(self)@, i as int, d),
    {
        let last = i + 1;
        if c == '\0' {
            self.cut(last);
            self.cut(i);
            self.phase = Phase::Ending;
            self.prev = c;
            return;
        }
        match self.phase {
            Phase::Ending => {
                if vowel {
                    if diaeresis {
                        self.cut(i);
                    }
                    self.phase = Phase::Starting;
                }
            },
            Phase::Starting => {
                if is_dipthong(c, self.prev) {
                } else if vowel {
                    self.cut(last);
                } else {
                    self.phase = Phase::Restarting;
                }
            },
            Phase::Restarting => {
                if vowel {
                    self.cut(last);
                    self.phase = Phase::Starting;
                } else if c == 'σ' && self.prev == 'τ' && self.prev_prev == 'ρ' {
                    self.cut(i);
                    self.phase = Phase::Ending;
                } else if joinable_consonant(c, self.prev) {
                    self.prev_prev = self.prev;
                } else {
                    self.cut(last);
                    self.phase = Phase::Ending;
                }
            },
        }
        self.prev = c;
    }
}

/// Finds where the syllables of the word with grapheme clusters `gs` start,
/// from right to left.
fn find_cuts(gs: &Vec<String>) -> (r: Vec<usize>)
    ensures
        r@.map_values(|x: usize| x as int) == syllable_cuts(gs@.map_values(|g: String| g@)),
{
    let ghost g = gs@.map_values(|s: String| s@);
    let ghost ds = g.map_values(|x: Seq<char>| classify(x));
    let n = gs.len();
    let mut sc = Scanner { phase: Phase::Ending, end: n, prev: '\0', prev_prev: '\0', cuts: Vec::new() };
    assert(sc@.cuts =~= Seq::<int>::empty());
    let mut k: usize = n;
    while k > 0
        invariant
            k <= n,
            n == gs@.len(),
            g == gs@.map_values(|s: String| s@),
            ds == g.map_values(|x: Seq<char>| classify(x)),
            sc@ == scan_from(ds, k as int),
        decreases k,
    {
        k = k - 1;
        let (c, _, vowel, _, _, diaeresis) = categorise(gs[k].as_str());
        assert(ds[k as int] == classify(gs@[k as int]@));
        sc.step(k, c, vowel, diaeresis, Ghost(ds[k as int]));
    }
    sc.cut(0);
    sc.cuts
}

proof fn lemma_prefix(gs: Seq<Seq<char>>, c: Seq<int>, len: int)
    requires
        cuts_wf(c, gs.len() as int),
        0 <= len <= c.len(),
    ensures
        Seq::new(len as nat, |j: int| piece(gs, c, c.len() - 1 - j)).flatten() == gs.subrange(
            0,
            cut_stop(c, gs.len() as int, c.len() - len),
        ).flatten(),
    decreases len,
{
    let n = gs.len() as int;
    let m = c.len() as int;
    if len == 0 {
        assert(gs.subrange(0, cut_stop(c, n, m)) =~= Seq::<Seq<char>>::empty());
        assert(Seq::new(0, |j: int| piece(gs, c, m - 1 - j)) =~= Seq::<Seq<char>>::empty());
    } else {
        lemma_prefix(gs, c, len - 1);
        let q = m - len;
        let a = c[q];
        let b = cut_stop(c, n, q);
        assert(cut_stop(c, n, m - (len - 1)) == a);
        assert(0 <= a < b <= n) by {
            if q > 0 {
                assert(c[q - 1] > c[q]);
            }
        }
        let prev = Seq::new((len - 1) as nat, |j: int| piece(gs, c, m - 1 - j));
        assert(Seq::new(len as nat, |j: int| piece(gs, c, m - 1 - j)) =~= prev.push(piece(gs, c, q)));
        prev.lemma_flatten_push(piece(gs, c, q));
        lemma_flatten_concat(gs.subrange(0, a), gs.subrange(a, b));
        assert(gs.subrange(0, a) + gs.subrange(a, b) =~= gs.subrange(0, b));
    }
}

/// Joining the syllables of a word, in order, gives back the word.
pub proof fn lemma_syllables_concatenate(gs: Seq<Seq<char>>)
    ensures
        syllables_of(gs).flatten() == gs.flatten(),
{
    let c = syllable_cuts(gs);
    lemma_cuts_wf(gs);
    lemma_prefix(gs, c, c.len() as int);
    assert(syllables_of(gs) =~= Seq::new(c.len(), |j: int| piece(gs, c, c.len() - 1 - j)));
    assert(gs.subrange(0, gs.len() as int) =~= gs);
}

/// Every syllable of a word whose grapheme clusters are non-empty is non-empty.
pub proof fn lemma_syllables_nonempty(gs: Seq<Seq<char>>)
    requires
        forall|t: int| 0 <= t < gs.len() ==> (#[trigger] gs[t]).len() > 0,
    ensures
        forall|j: int| 0 <= j < syllables_of(gs).len() ==> (#[trigger] syllables_of(gs)[j]).len() > 0,
{
    let c = syllable_cuts(gs);
    let n = gs.len() as int;
    let m = c.len() as int;
    lemma_cuts_wf(gs);
    assert forall|j: int| 0 <= j < syllables_of(gs).len() implies (#[trigger] syllables_of(gs)[j]).len() > 0 by {
        let q = m - 1 - j;
        let a = c[q];
        let b = cut_stop(c, n, q);
        if q > 0 {
            assert(c[q - 1] > c[q]);
        }
        let s = gs.subrange(a, b);
        assert(s[0] == gs[a]);
        s.lemma_flatten_and_flatten_alt_are_equivalent();
        s.lemma_flatten_length_ge_single_element_length(0);
    }
}

/// Builds the text of graphemes `a..b` of `gs`.
fn join_range(gs: &Vec<String>, a: usize, b: usize) -> (r: String)
    requires
        a <= b <= gs@.len(),
    ensures
        r@ == gs@.map_values(|s: String| s@).subrange(a as int, b as int).flatten(),
{
    let ghost g = gs@.map_values(|s: String| s@);
    let mut s = String::new();
    let mut t = a;
    assert(g.subrange(a as int, a as int) =~= Seq::<Seq<char>>::empty());
    while t < b
        invariant
            a <= t <= b <= gs@.len(),
            g == gs@.map_values(|s: String| s@),
            s@ == g.subrange(a as int, t as int).flatten(),
        decreases b - t,
    {
        s.append(gs[t].as_str());
        proof {
            g.subrange(a as int, t as int).lemma_flatten_push(g[t as int]);
            assert(g.subrange(a as int, t + 1) =~= g.subrange(a as int, t as int).push(g[t as int]));
        }
        t = t + 1;
    }
    s
}

/// Splits a word, given as its grapheme clusters, into its syllables, left
/// to right.
pub fn split_clusters(gs: &Vec<String>) -> (r: Vec<String>)
    ensures
        r@.map_values(|s: String| s@) == syllables_of(gs@.map_values(|s: String| s@)),
{
    let ghost g = gs@.map_values(|s: String| s@);
    let cuts = find_cuts(&gs);
    let ghost c = cuts@.map_values(|x: usize| x as int);
    proof {
        lemma_cuts_wf(g);
    }
    let n = gs.len();
    let m = cuts.len();
    let mut out: Vec<String> = Vec::new();
    let mut q = m;
    while q > 0
        invariant
            q <= m,
            m == c.len(),
            n == g.len(),
            g == gs@.map_values(|s: String| s@),
            c == cuts@.map_values(|x: usize| x as int),
            c == syllable_cuts(g),
            cuts_wf(c, n as int),
            out@.map_values(|s: String| s@) =~= syllables_of(g).take(m - q),
        decreases q,
    {
        q = q - 1;
        let a = cuts[q];
        let b = if q == 0 {
            n
        } else {
            cuts[q - 1]
        };
        assert(a as int == c[q as int]);
        assert(q > 0 ==> b as int == c[q - 1] && c[q - 1] > c[q as int]);
        let s = join_range(&gs, a, b);
        let ghost before = out@.map_values(|s: String| s@);
        out.push(s);
        proof {
            assert(cut_stop(c, n as int, q as int) == b as int);
            assert(syllables_of(g)[m - q - 1] == piece(g, c, q as int));
            assert(out@.map_values(|s: String| s@) =~= before.push(s@));
            assert(syllables_of(g).take(m - q) =~= syllables_of(g).take(m - q - 1).push(
                syllables_of(g)[m - q - 1],
            ));
        }
    }
    assert(syllables_of(g).take(m as int) =~= syllables_of(g));
    out
}

/// Splits a word into its syllables, left to right. Each syllable is a run
/// of whole grapheme clusters of the word; together, in order, they give back
/// the word, and none is empty. A cluster that is not a Greek letter stands
/// as a syllable of its own.
pub fn syllables(word: &str) -> (r: Vec<String>)
    ensures
        r@.map_values(|s: String| s@) == syllables_of(grapheme_clusters(word@)),
        r@.map_values(|s: String| s@).flatten() == word@,
        forall|j: int| 0 <= j < r@.len() ==> (#[trigger] r@[j])@.len() > 0,
        r@.len() <= grapheme_clusters(word@).len(),
{
    let gs = graphemes(word);
    let out = split_clusters(&gs);
    proof {
        let g = gs@.map_values(|s: String| s@);
        lemma_syllables_concatenate(g);
        assert forall|t: int| 0 <= t < g.len() implies (#[trigger] g[t]).len() > 0 by {
            assert(g[t] == gs@[t]@);
        }
        lemma_syllables_nonempty(g);
        lemma_syllables_partition(g);
        assert forall|j: int| 0 <= j < out@.len() implies (#[trigger] out@[j])@.len() > 0 by {
            assert(out@.map_values(|s: String| s@)[j] == out@[j]@);
        }
    }
    out
}

/// Syllable boundaries depend on the graphemes' classifications alone: two
/// words whose clusters classify alike, position by position, are cut at the
/// same cluster positions.
pub proof fn lemma_cuts_follow_classification(gs1: Seq<Seq<char>>, gs2: Seq<Seq<char>>)
    requires
        gs1.len() == gs2.len(),
        forall|t: int| 0 <= t < gs1.len() ==> classify(#[trigger] gs1[t]) == classify(gs2[t]),
    ensures
        syllable_cuts(gs1) == syllable_cuts(gs2),
{
    let ds1 = gs1.map_values(|g: Seq<char>| classify(g));
    let ds2 = gs2.map_values(|g: Seq<char>| classify(g));
    assert(ds1 =~= ds2);
}

/// Whether two decomposed graphemes differ at most in the case of their base letter.
pub open spec fn same_but_case(d1: Seq<char>, d2: Seq<char>) -> bool {
    &&& d1.len() == d2.len()
    &&& d1.len() > 0
    &&& letter_info(d1[0]) == letter_info(d2[0])
    &&& d1.subrange(1, d1.len() as int) == d2.subrange(1, d2.len() as int)
}

/// Writing letters in another case moves no syllable boundary: two words
/// whose clusters differ at most in the case of their base letters are cut
/// at the same cluster positions.
pub proof fn lemma_case_keeps_cuts(gs1: Seq<Seq<char>>, gs2: Seq<Seq<char>>)
    requires
        gs1.len() == gs2.len(),
        forall|t: int| 0 <= t < gs1.len() ==> same_but_case(nfd_all(#[trigger] gs1[t]), nfd_all(gs2[t])),
    ensures
        syllable_cuts(gs1) == syllable_cuts(gs2),
{
    assert forall|t: int| 0 <= t < gs1.len() implies classify(#[trigger] gs1[t]) == classify(gs2[t]) by {
        lemma_case_keeps_class(nfd_all(gs1[t]), nfd_all(gs2[t]));
    }
    lemma_cuts_follow_classification(gs1, gs2);
}

/// Two decomposed graphemes that differ only in the case of their base letter
/// classify alike.
pub proof fn lemma_case_keeps_class(d1: Seq<char>, d2: Seq<char>)
    requires
        same_but_case(d1, d2),
    ensures
        classify_decomposed(d1) == classify_decomposed(d2),
{
}

proof fn lemma_all_foreign_scan(ds: Seq<Descriptor>, k: int)
    requires
        0 <= k <= ds.len(),
        forall|t: int| 0 <= t < ds.len() ==> (#[trigger] ds[t]).0 == '\0',
    ensures
        scan_from(ds, k).end == k,
        scan_from(ds, k).cuts =~= Seq::new((ds.len() - k) as nat, |j: int| ds.len() - 1 - j),
    decreases ds.len() - k,
{
    if k < ds.len() {
        lemma_all_foreign_scan(ds, k + 1);
    }
}

/// A word none of whose clusters is a Greek letter splits into one syllable
/// per cluster.
pub proof fn lemma_foreign_word_fragments(gs: Seq<Seq<char>>)
    requires
        forall|t: int| 0 <= t < gs.len() ==> (#[trigger] classify(gs[t])).0 == '\0',
    ensures
        syllables_of(gs) == gs,
{
    let ds = gs.map_values(|g: Seq<char>| classify(g));
    let n = gs.len() as int;
    assert forall|t: int| 0 <= t < ds.len() implies (#[trigger] ds[t]).0 == '\0' by {
        assert(ds[t] == classify(gs[t]));
    }
    lemma_all_foreign_scan(ds, 0);
    let c = syllable_cuts(gs);
    assert(c =~= Seq::new(n as nat, |j: int| n - 1 - j));
    assert forall|j: int| 0 <= j < n implies syllables_of(gs)[j] == gs[j] by {
        let q = n - 1 - j;
        assert(c[q] == j);
        assert(cut_stop(c, n, q) == j + 1);
        assert(gs.subrange(j, j + 1) =~= seq![gs[j]]);
        seq![gs[j]].lemma_flatten_singleton();
    }
    assert(syllables_of(gs) =~= gs);
}

/// The normalization form of a word moves no syllable boundary: two words
/// whose clusters, position by position, decompose alike (the marks of a
/// letter in either order) are cut at the same cluster positions.
pub proof fn lemma_encoding_keeps_cuts(gs1: Seq<Seq<char>>, gs2: Seq<Seq<char>>)
    requires
        gs1.len() == gs2.len(),
        forall|t: int|
            0 <= t < gs1.len() ==> nfd_all(#[trigger] gs1[t]) == nfd_all(gs2[t]) || same_spelling(
                nfd_all(gs1[t]),
                nfd_all(gs2[t]),
            ),
    ensures
        syllable_cuts(gs1) == syllable_cuts(gs2),
{
    assert forall|t: int| 0 <= t < gs1.len() implies classify(#[trigger] gs1[t]) == classify(gs2[t]) by {
        if same_spelling(nfd_all(gs1[t]), nfd_all(gs2[t])) {
            lemma_spelling_keeps_class(nfd_all(gs1[t]), nfd_all(gs2[t]));
        }
    }
    lemma_cuts_follow_classification(gs1, gs2);
}

proof fn lemma_descending_len(c: Seq<int>, n: int)
    requires
        cuts_wf(c, n),
        n >= 0,
    ensures
        c.len() <= n,
{
    if c.len() > 0 {
        let m = c.len() as int;
        assert forall|j: int| 0 <= j < m implies #[trigger] c[j] >= m - 1 - j by {
            lemma_descending_tail(c, n, j);
        }
        assert(c[0] >= m - 1);
        assert(c[0] < n);
    }
}

proof fn lemma_descending_tail(c: Seq<int>, n: int, j: int)
    requires
        cuts_wf(c, n),
        0 <= j < c.len(),
    ensures
        c[j] >= c.len() - 1 - j,
    decreases c.len() - j,
{
    if j < c.len() - 1 {
        lemma_descending_tail(c, n, j + 1);
        assert(c[j] > c[j + 1]);
    }
}

/// The syllables partition the word: they start at cluster positions that
/// run strictly downwards from below the number of clusters to 0 (read right
/// to left), each syllable is the run of clusters from its start to the next
/// start, and there are no more syllables than clusters.
pub proof fn lemma_syllables_partition(gs: Seq<Seq<char>>)
    ensures
        cuts_wf(syllable_cuts(gs), gs.len() as int),
        syllables_of(gs).len() == syllable_cuts(gs).len(),
        syllables_of(gs).len() <= gs.len(),
        forall|j: int|
            0 <= j < syllables_of(gs).len() ==> #[trigger] syllables_of(gs)[j] == piece(
                gs,
                syllable_cuts(gs),
                syllable_cuts(gs).len() - 1 - j,
            ),
{
    lemma_cuts_wf(gs);
    lemma_descending_len(syllable_cuts(gs), gs.len() as int);
}
} // verus!
