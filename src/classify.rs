use vstd::prelude::*;
use vstd::string::*;

verus! {

/// The accent a vowel carries.
#[derive(Debug, Clone, Copy, PartialEq, Eq, Structural)]
pub enum Accent {
    Acute,
    Circumflex,
    Grave,
    Unaccented,
}

/// The breathing a vowel carries.
#[derive(Debug, Clone, Copy, PartialEq, Eq, Structural)]
pub enum Breathing {
    Rough,
    Smooth,
    Unmarked,
}

/// Descriptor of one grapheme: canonical lowercase letter (`'\0'` when the
/// grapheme is not a Greek letter), transliteration, vowel flag, breathing,
/// accent and diaeresis flag.
pub type Descriptor = (char, Seq<char>, bool, Breathing, Accent, bool);

pub const SMOOTH_MARK: char = '\u{313}';

pub const ROUGH_MARK: char = '\u{314}';

pub const ACUTE_MARK: char = '\u{301}';

pub const GRAVE_MARK: char = '\u{300}';

pub const CIRCUMFLEX_MARK: char = '\u{342}';

pub const DIAERESIS_MARK: char = '\u{308}';

/// Base letter of a group of eight code points in the block U+1F00..U+1F6F,
/// lowercase and uppercase groups alternating.
pub open spec fn extended_base(g: int) -> char {
    if g == 0 { 'α' } else if g == 1 { 'Α' } else if g == 2 { 'ε' } else if g == 3 { 'Ε' }
    else if g == 4 { 'η' } else if g == 5 { 'Η' } else if g == 6 { 'ι' } else if g == 7 { 'Ι' }
    else if g == 8 { 'ο' } else if g == 9 { 'Ο' } else if g == 10 { 'υ' } else if g == 11 { 'Υ' }
    else if g == 12 { 'ω' } else { 'Ω' }
}

/// Whether `u` is an assigned vowel with breathing in the block U+1F00..U+1F6F.
pub open spec fn in_extended_block(u: int) -> bool {
    &&& 0x1F00 <= u < 0x1F70
    &&& ((u - 0x1F00) / 8 == 2 || (u - 0x1F00) / 8 == 3 || (u - 0x1F00) / 8 == 8
        || (u - 0x1F00) / 8 == 9) ==> (u - 0x1F00) % 8 < 6
    &&& (u - 0x1F00) / 8 == 11 ==> (u - 0x1F00) % 8 % 2 == 1
}

/// Combining marks of position `p` within a group of the block U+1F00..U+1F6F:
/// even positions smooth, odd rough; then none, grave, acute, circumflex by pairs.
pub open spec fn extended_marks(p: int) -> Seq<char> {
    let b = if p % 2 == 0 { SMOOTH_MARK } else { ROUGH_MARK };
    if p / 2 == 0 { seq![b] }
    else if p / 2 == 1 { seq![b, GRAVE_MARK] }
    else if p / 2 == 2 { seq![b, ACUTE_MARK] }
    else { seq![b, CIRCUMFLEX_MARK] }
}

/// Canonical decomposition of one character: precomposed Greek vowels become
/// their base letter followed by combining marks; any other character stands
/// for itself.
pub open spec fn nfd(c: char) -> Seq<char> {
    let u = c as int;
    if in_extended_block(u) {
        seq![extended_base((u - 0x1F00) / 8)] + extended_marks((u - 0x1F00) % 8)
    } else {
        match c {
            'ά' | '\u{1F71}' => seq!['α', ACUTE_MARK],
            'έ' | '\u{1F73}' => seq!['ε', ACUTE_MARK],
            'ή' | '\u{1F75}' => seq!['η', ACUTE_MARK],
            'ί' | '\u{1F77}' => seq!['ι', ACUTE_MARK],
            'ό' | '\u{1F79}' => seq!['ο', ACUTE_MARK],
            'ύ' | '\u{1F7B}' => seq!['υ', ACUTE_MARK],
            'ώ' | '\u{1F7D}' => seq!['ω', ACUTE_MARK],
            'Ά' | '\u{1FBB}' => seq!['Α', ACUTE_MARK],
            'Έ' | '\u{1FC9}' => seq!['Ε', ACUTE_MARK],
            'Ή' | '\u{1FCB}' => seq!['Η', ACUTE_MARK],
            'Ί' | '\u{1FDB}' => seq!['Ι', ACUTE_MARK],
            'Ό' | '\u{1FF9}' => seq!['Ο', ACUTE_MARK],
            'Ύ' | '\u{1FEB}' => seq!['Υ', ACUTE_MARK],
            'Ώ' | '\u{1FFB}' => seq!['Ω', ACUTE_MARK],
            'ὰ' => seq!['α', GRAVE_MARK],
            'ὲ' => seq!['ε', GRAVE_MARK],
            'ὴ' => seq!['η', GRAVE_MARK],
            'ὶ' => seq!['ι', GRAVE_MARK],
            'ὸ' => seq!['ο', GRAVE_MARK],
            'ὺ' => seq!['υ', GRAVE_MARK],
            'ὼ' => seq!['ω', GRAVE_MARK],
            'Ὰ' => seq!['Α', GRAVE_MARK],
            'Ὲ' => seq!['Ε', GRAVE_MARK],
            'Ὴ' => seq!['Η', GRAVE_MARK],
            'Ὶ' => seq!['Ι', GRAVE_MARK],
            'Ὸ' => seq!['Ο', GRAVE_MARK],
            'Ὺ' => seq!['Υ', GRAVE_MARK],
            'Ὼ' => seq!['Ω', GRAVE_MARK],
            'ᾶ' => seq!['α', CIRCUMFLEX_MARK],
            'ῆ' => seq!['η', CIRCUMFLEX_MARK],
            'ῖ' => seq!['ι', CIRCUMFLEX_MARK],
            'ῦ' => seq!['υ', CIRCUMFLEX_MARK],
            'ῶ' => seq!['ω', CIRCUMFLEX_MARK],
            'ϊ' => seq!['ι', DIAERESIS_MARK],
            'ϋ' => seq!['υ', DIAERESIS_MARK],
            'Ϊ' => seq!['Ι', DIAERESIS_MARK],
            'Ϋ' => seq!['Υ', DIAERESIS_MARK],
            '\u{390}' => seq!['ι', DIAERESIS_MARK, ACUTE_MARK],
            '\u{3B0}' => seq!['υ', DIAERESIS_MARK, ACUTE_MARK],
            '\u{1FD2}' => seq!['ι', DIAERESIS_MARK, GRAVE_MARK],
            '\u{1FD3}' => seq!['ι', DIAERESIS_MARK, ACUTE_MARK],
            '\u{1FD7}' => seq!['ι', DIAERESIS_MARK, CIRCUMFLEX_MARK],
            '\u{1FE2}' => seq!['υ', DIAERESIS_MARK, GRAVE_MARK],
            '\u{1FE3}' => seq!['υ', DIAERESIS_MARK, ACUTE_MARK],
            '\u{1FE7}' => seq!['υ', DIAERESIS_MARK, CIRCUMFLEX_MARK],
            _ => seq![c],
        }
    }
}

/// Decomposition of a whole grapheme, character by character.
pub open spec fn nfd_all(s: Seq<char>) -> Seq<char>
    decreases s.len(),
{
    if s.len() == 0 {
        Seq::empty()
    } else {
        nfd_all(s.drop_last()) + nfd(s.last())
    }
}


fn extended_base_letter(g: u32) -> (r: char)
    requires
        g < 14,
    ensures
        r == extended_base(g as int),
{
    if g == 0 { 'α' } else if g == 1 { 'Α' } else if g == 2 { 'ε' } else if g == 3 { 'Ε' }
    else if g == 4 { 'η' } else if g == 5 { 'Η' } else if g == 6 { 'ι' } else if g == 7 { 'Ι' }
    else if g == 8 { 'ο' } else if g == 9 { 'Ο' } else if g == 10 { 'υ' } else if g == 11 { 'Υ' }
    else if g == 12 { 'ω' } else { 'Ω' }
}

/// Appends the canonical decomposition of `c` to `d`.
fn push_decomposed(d: &mut Vec<char>, c: char)
    ensures
        final(d)@ == old(d)@ + nfd(c),
{
    let u = c as u32;
    if 0x1F00 <= u && u < 0x1F70 {
        let g = (u - 0x1F00) / 8;
        let p = (u - 0x1F00) % 8;
        let short_group = g == 2 || g == 3 || g == 8 || g == 9;
        if !(short_group && p >= 6) && !(g == 11 && p % 2 == 0) {
            d.push(extended_base_letter(g));
            if p % 2 == 0 {
                d.push(SMOOTH_MARK);
            } else {
                d.push(ROUGH_MARK);
            }
            if p / 2 == 1 {
                d.push(GRAVE_MARK);
            } else if p / 2 == 2 {
                d.push(ACUTE_MARK);
            } else if p / 2 == 3 {
                d.push(CIRCUMFLEX_MARK);
            }
            assert(d@ =~= old(d)@ + nfd(c));
            return;
        }
    }
    match c {
        'ά' | '\u{1F71}' => {
            d.push('α');
            d.push(ACUTE_MARK);
        },
        'έ' | '\u{1F73}' => {
            d.push('ε');
            d.push(ACUTE_MARK);
        },
        'ή' | '\u{1F75}' => {
            d.push('η');
            d.push(ACUTE_MARK);
        },
        'ί' | '\u{1F77}' => {
            d.push('ι');
            d.push(ACUTE_MARK);
        },
        'ό' | '\u{1F79}' => {
            d.push('ο');
            d.push(ACUTE_MARK);
        },
        'ύ' | '\u{1F7B}' => {
            d.push('υ');
            d.push(ACUTE_MARK);
        },
        'ώ' | '\u{1F7D}' => {
            d.push('ω');
            d.push(ACUTE_MARK);
        },
        'Ά' | '\u{1FBB}' => {
            d.push('Α');
            d.push(ACUTE_MARK);
        },
        'Έ' | '\u{1FC9}' => {
            d.push('Ε');
            d.push(ACUTE_MARK);
        },
        'Ή' | '\u{1FCB}' => {
            d.push('Η');
            d.push(ACUTE_MARK);
        },
        'Ί' | '\u{1FDB}' => {
            d.push('Ι');
            d.push(ACUTE_MARK);
        },
        'Ό' | '\u{1FF9}' => {
            d.push('Ο');
            d.push(ACUTE_MARK);
        },
        'Ύ' | '\u{1FEB}' => {
            d.push('Υ');
            d.push(ACUTE_MARK);
        },
        'Ώ' | '\u{1FFB}' => {
            d.push('Ω');
            d.push(ACUTE_MARK);
        },
        'ὰ' => {
            d.push('α');
            d.push(GRAVE_MARK);
        },
        'ὲ' => {
            d.push('ε');
            d.push(GRAVE_MARK);
        },
        'ὴ' => {
            d.push('η');
            d.push(GRAVE_MARK);
        },
        'ὶ' => {
            d.push('ι');
            d.push(GRAVE_MARK);
        },
        'ὸ' => {
            d.push('ο');
            d.push(GRAVE_MARK);
        },
        'ὺ' => {
            d.push('υ');
            d.push(GRAVE_MARK);
        },
        'ὼ' => {
            d.push('ω');
            d.push(GRAVE_MARK);
        },
        'Ὰ' => {
            d.push('Α');
            d.push(GRAVE_MARK);
        },
        'Ὲ' => {
            d.push('Ε');
            d.push(GRAVE_MARK);
        },
        'Ὴ' => {
            d.push('Η');
            d.push(GRAVE_MARK);
        },
        'Ὶ' => {
            d.push('Ι');
            d.push(GRAVE_MARK);
        },
        'Ὸ' => {
            d.push('Ο');
            d.push(GRAVE_MARK);
        },
        'Ὺ' => {
            d.push('Υ');
            d.push(GRAVE_MARK);
        },
        'Ὼ' => {
            d.push('Ω');
            d.push(GRAVE_MARK);
        },
        'ᾶ' => {
            d.push('α');
            d.push(CIRCUMFLEX_MARK);
        },
        'ῆ' => {
            d.push('η');
            d.push(CIRCUMFLEX_MARK);
        },
        'ῖ' => {
            d.push('ι');
            d.push(CIRCUMFLEX_MARK);
        },
        'ῦ' => {
            d.push('υ');
            d.push(CIRCUMFLEX_MARK);
        },
        'ῶ' => {
            d.push('ω');
            d.push(CIRCUMFLEX_MARK);
        },
        'ϊ' => {
            d.push('ι');
            d.push(DIAERESIS_MARK);
        },
        'ϋ' => {
            d.push('υ');
            d.push(DIAERESIS_MARK);
        },
        'Ϊ' => {
            d.push('Ι');
            d.push(DIAERESIS_MARK);
        },
        'Ϋ' => {
            d.push('Υ');
            d.push(DIAERESIS_MARK);
        },
        '\u{390}' => {
            d.push('ι');
            d.push(DIAERESIS_MARK);
            d.push(ACUTE_MARK);
        },
        '\u{3B0}' => {
            d.push('υ');
            d.push(DIAERESIS_MARK);
            d.push(ACUTE_MARK);
        },
        '\u{1FD2}' => {
            d.push('ι');
            d.push(DIAERESIS_MARK);
            d.push(GRAVE_MARK);
        },
        '\u{1FD3}' => {
            d.push('ι');
            d.push(DIAERESIS_MARK);
            d.push(ACUTE_MARK);
        },
        '\u{1FD7}' => {
            d.push('ι');
            d.push(DIAERESIS_MARK);
            d.push(CIRCUMFLEX_MARK);
        },
        '\u{1FE2}' => {
            d.push('υ');
            d.push(DIAERESIS_MARK);
            d.push(GRAVE_MARK);
        },
        '\u{1FE3}' => {
            d.push('υ');
            d.push(DIAERESIS_MARK);
            d.push(ACUTE_MARK);
        },
        '\u{1FE7}' => {
            d.push('υ');
            d.push(DIAERESIS_MARK);
            d.push(CIRCUMFLEX_MARK);
        },
        _ => {
            d.push(c);
        },
    }
    assert(d@ =~= old(d)@ + nfd(c));
}


/// The lowercase letter that `c` writes, in either case, with its
/// transliteration; `('\0', "")` when `c` is not a Greek letter.
pub open spec fn letter_info(c: char) -> (char, Seq<char>) {
    match c {
        'α' | 'Α' => ('α', "a"@),
        'β' | 'Β' => ('β', "b"@),
        'γ' | 'Γ' => ('γ', "g"@),
        'δ' | 'Δ' => ('δ', "d"@),
        'ε' | 'Ε' => ('ε', "e"@),
        'ζ' | 'Ζ' => ('ζ', "z"@),
        'η' | 'Η' => ('η', "e"@),
        'θ' | 'Θ' => ('θ', "th"@),
        'ι' | 'Ι' => ('ι', "i"@),
        'κ' | 'Κ' => ('κ', "k"@),
        'λ' | 'Λ' => ('λ', "l"@),
        'μ' | 'Μ' => ('μ', "m"@),
        'ν' | 'Ν' => ('ν', "n"@),
        'ξ' | 'Ξ' => ('ξ', "x"@),
        'ο' | 'Ο' => ('ο', "o"@),
        'π' | 'Π' => ('π', "p"@),
        'ρ' | 'Ρ' => ('ρ', "r"@),
        'σ' | 'Σ' | 'ς' => ('σ', "s"@),
        'τ' | 'Τ' => ('τ', "t"@),
        'υ' | 'Υ' => ('υ', "u"@),
        'φ' | 'Φ' => ('φ', "f"@),
        'χ' | 'Χ' => ('χ', "ch"@),
        'ψ' | 'Ψ' => ('ψ', "ps"@),
        'ω' | 'Ω' => ('ω', "o"@),
        _ => ('\0', Seq::empty()),
    }
}

fn letter_of(c: char) -> (r: (char, &'static str))
    ensures
        (r.0, r.1@) == letter_info(c),
{
    proof {
        reveal_strlit("");
    }
    match c {
        'α' | 'Α' => ('α', "a"),
        'β' | 'Β' => ('β', "b"),
        'γ' | 'Γ' => ('γ', "g"),
        'δ' | 'Δ' => ('δ', "d"),
        'ε' | 'Ε' => ('ε', "e"),
        'ζ' | 'Ζ' => ('ζ', "z"),
        'η' | 'Η' => ('η', "e"),
        'θ' | 'Θ' => ('θ', "th"),
        'ι' | 'Ι' => ('ι', "i"),
        'κ' | 'Κ' => ('κ', "k"),
        'λ' | 'Λ' => ('λ', "l"),
        'μ' | 'Μ' => ('μ', "m"),
        'ν' | 'Ν' => ('ν', "n"),
        'ξ' | 'Ξ' => ('ξ', "x"),
        'ο' | 'Ο' => ('ο', "o"),
        'π' | 'Π' => ('π', "p"),
        'ρ' | 'Ρ' => ('ρ', "r"),
        'σ' | 'Σ' | 'ς' => ('σ', "s"),
        'τ' | 'Τ' => ('τ', "t"),
        'υ' | 'Υ' => ('υ', "u"),
        'φ' | 'Φ' => ('φ', "f"),
        'χ' | 'Χ' => ('χ', "ch"),
        'ψ' | 'Ψ' => ('ψ', "ps"),
        'ω' | 'Ω' => ('ω', "o"),
        _ => ('\0', ""),
    }
}

pub open spec fn is_vowel_letter(l: char) -> bool {
    l == 'α' || l == 'ε' || l == 'η' || l == 'ι' || l == 'ο' || l == 'υ' || l == 'ω'
}

/// Kind of a combining mark: 1 breathing, 2 accent, 3 diaeresis, 0 any other character.
pub open spec fn mark_kind(m: char) -> int {
    if m == SMOOTH_MARK || m == ROUGH_MARK {
        1
    } else if m == ACUTE_MARK || m == GRAVE_MARK || m == CIRCUMFLEX_MARK {
        2
    } else if m == DIAERESIS_MARK {
        3
    } else {
        0
    }
}

/// Whether the mark `x` is among the (at most two) marks `ms`.
pub open spec fn has_mark(ms: Seq<char>, x: char) -> bool {
    (ms.len() >= 1 && ms[0] == x) || (ms.len() >= 2 && ms[1] == x)
}

/// Marks that the vowel `l` can carry: at most two, known, of different kinds;
/// a circumflex only on a long-capable vowel, a diaeresis only on iota and upsilon.
pub open spec fn marks_fit(l: char, ms: Seq<char>) -> bool {
    &&& ms.len() <= 2
    &&& ms.len() >= 1 ==> mark_kind(ms[0]) != 0
    &&& ms.len() >= 2 ==> mark_kind(ms[1]) != 0 && mark_kind(ms[0]) != mark_kind(ms[1])
    &&& has_mark(ms, CIRCUMFLEX_MARK) ==> (l == 'α' || l == 'η' || l == 'ι' || l == 'υ' || l == 'ω')
    &&& has_mark(ms, DIAERESIS_MARK) ==> (l == 'ι' || l == 'υ')
}

pub open spec fn accent_of(ms: Seq<char>) -> Accent {
    if has_mark(ms, ACUTE_MARK) {
        Accent::Acute
    } else if has_mark(ms, GRAVE_MARK) {
        Accent::Grave
    } else if has_mark(ms, CIRCUMFLEX_MARK) {
        Accent::Circumflex
    } else {
        Accent::Unaccented
    }
}

/// Breathing of a vowel with marks `ms`: the breathing mark it carries, if
/// any. A diaeresis excludes breathing.
pub open spec fn breathing_of(ms: Seq<char>) -> Breathing {
    if has_mark(ms, DIAERESIS_MARK) {
        Breathing::Unmarked
    } else if has_mark(ms, ROUGH_MARK) {
        Breathing::Rough
    } else if has_mark(ms, SMOOTH_MARK) {
        Breathing::Smooth
    } else {
        Breathing::Unmarked
    }
}

/// Transliteration of a vowel. Unaccented omicron with rough breathing is
/// rendered "i": a doubtful value, kept as it stands until it is confirmed.
pub open spec fn vowel_transliteration(l: char, b: Breathing, a: Accent) -> Seq<char> {
    if l == 'ο' && b == Breathing::Rough && a == Accent::Unaccented {
        "i"@
    } else {
        letter_info(l).1
    }
}

/// The descriptor of anything that is not a Greek letter.
pub open spec fn not_greek() -> Descriptor {
    ('\0', Seq::empty(), false, Breathing::Unmarked, Accent::Unaccented, false)
}

/// Classification of a decomposed grapheme: a base letter followed by its marks.
pub open spec fn classify_decomposed(d: Seq<char>) -> Descriptor {
    if d.len() == 0 {
        not_greek()
    } else {
        let (l, t) = letter_info(d[0]);
        let ms = d.subrange(1, d.len() as int);
        if l == '\0' {
            not_greek()
        } else if !is_vowel_letter(l) {
            if ms.len() == 0 {
                (l, t, false, Breathing::Unmarked, Accent::Unaccented, false)
            } else {
                not_greek()
            }
        } else if marks_fit(l, ms) {
            let b = breathing_of(ms);
            let a = accent_of(ms);
            (l, vowel_transliteration(l, b, a), true, b, a, has_mark(ms, DIAERESIS_MARK))
        } else {
            not_greek()
        }
    }
}

/// Classification of one grapheme cluster, whatever its normalization form.
pub open spec fn classify(g: Seq<char>) -> Descriptor {
    classify_decomposed(nfd_all(g))
}


fn kind_of_mark(m: char) -> (r: u8)
    ensures
        r as int == mark_kind(m),
{
    if m == SMOOTH_MARK || m == ROUGH_MARK {
        1
    } else if m == ACUTE_MARK || m == GRAVE_MARK || m == CIRCUMFLEX_MARK {
        2
    } else if m == DIAERESIS_MARK {
        3
    } else {
        0
    }
}

/// Classifies a decomposed grapheme held in `d`.
fn classify_chars(d: &Vec<char>) -> (r: (char, &'static str, bool, Breathing, Accent, bool))
    ensures
        (r.0, r.1@, r.2, r.3, r.4, r.5) == classify_decomposed(d@),
{
    proof {
        reveal_strlit("");
        reveal_strlit("i");
    }
    let none = ('\0', "", false, Breathing::Unmarked, Accent::Unaccented, false);
    if d.len() == 0 {
        return none;
    }
    let ghost ms = d@.subrange(1, d@.len() as int);
    let (l, t) = letter_of(d[0]);
    let n = d.len() - 1;
    if l == '\0' {
        return none;
    }
    let vowel = l == 'α' || l == 'ε' || l == 'η' || l == 'ι' || l == 'ο' || l == 'υ' || l == 'ω';
    if !vowel {
        if n == 0 {
            return (l, t, false, Breathing::Unmarked, Accent::Unaccented, false);
        }
        return none;
    }
    if n > 2 {
        return none;
    }
    let m0 = if n >= 1 { d[1] } else { '\0' };
    let m1 = if n >= 2 { d[2] } else { '\0' };
    assert(n >= 1 ==> ms[0] == m0);
    assert(n >= 2 ==> ms[1] == m1);
    let k0 = kind_of_mark(m0);
    let k1 = kind_of_mark(m1);
    if n >= 1 && k0 == 0 {
        return none;
    }
    if n >= 2 && (k1 == 0 || k0 == k1) {
        return none;
    }
    let has_acute = (n >= 1 && m0 == ACUTE_MARK) || (n >= 2 && m1 == ACUTE_MARK);
    let has_grave = (n >= 1 && m0 == GRAVE_MARK) || (n >= 2 && m1 == GRAVE_MARK);
    let has_circ = (n >= 1 && m0 == CIRCUMFLEX_MARK) || (n >= 2 && m1 == CIRCUMFLEX_MARK);
    let has_diaer = (n >= 1 && m0 == DIAERESIS_MARK) || (n >= 2 && m1 == DIAERESIS_MARK);
    let has_rough = (n >= 1 && m0 == ROUGH_MARK) || (n >= 2 && m1 == ROUGH_MARK);
    let has_smooth = (n >= 1 && m0 == SMOOTH_MARK) || (n >= 2 && m1 == SMOOTH_MARK);
    if has_circ && !(l == 'α' || l == 'η' || l == 'ι' || l == 'υ' || l == 'ω') {
        return none;
    }
    if has_diaer && !(l == 'ι' || l == 'υ') {
        return none;
    }
    let a = if has_acute {
        Accent::Acute
    } else if has_grave {
        Accent::Grave
    } else if has_circ {
        Accent::Circumflex
    } else {
        Accent::Unaccented
    };
    let b = if has_diaer {
        Breathing::Unmarked
    } else if has_rough {
        Breathing::Rough
    } else if has_smooth {
        Breathing::Smooth
    } else {
        Breathing::Unmarked
    };
    let t2 = if l == 'ο' && has_rough && !has_acute && !has_grave && !has_circ {
        "i"
    } else {
        t
    };
    (l, t2, true, b, a, has_diaer)
}

/// Classifies one extended grapheme cluster: its lowercase base letter
/// (`'\0'` when it is not a Greek letter), transliteration, whether it is a
/// vowel, its breathing, its accent and whether it carries a diaeresis.
/// Precomposed and decomposed encodings of a letter classify alike, and so
/// do its two cases.
pub fn categorise(c: &str) -> (r: (char, &'static str, bool, Breathing, Accent, bool))
    ensures
        (r.0, r.1@, r.2, r.3, r.4, r.5) == classify(c@),
{
    let len = c.unicode_len();
    let mut d: Vec<char> = Vec::new();
    let mut i: usize = 0;
    while i < len
        invariant
            len == c@.len(),
            i <= len,
            d@ == nfd_all(c@.subrange(0, i as int)),
        decreases len - i,
    {
        let ch = c.get_char(i);
        push_decomposed(&mut d, ch);
        proof {
            let s = c@.subrange(0, i + 1);
            assert(s.drop_last() =~= c@.subrange(0, i as int));
        }
        i = i + 1;
    }
    assert(c@.subrange(0, len as int) =~= c@);
    classify_chars(&d)
}

/// Whether a character is its own decomposition.
pub open spec fn is_decomposed(c: char) -> bool {
    nfd(c) == seq![c]
}

proof fn lemma_base_stable(g: int)
    requires
        0 <= g < 14,
    ensures
        is_decomposed(extended_base(g)),
{
    assert(is_decomposed('α') && is_decomposed('Α') && is_decomposed('ε') && is_decomposed('Ε'));
    assert(is_decomposed('η') && is_decomposed('Η') && is_decomposed('ι') && is_decomposed('Ι'));
    assert(is_decomposed('ο') && is_decomposed('Ο') && is_decomposed('υ') && is_decomposed('Υ'));
    assert(is_decomposed('ω') && is_decomposed('Ω'));
}

proof fn lemma_marks_stable()
    ensures
        is_decomposed(SMOOTH_MARK),
        is_decomposed(ROUGH_MARK),
        is_decomposed(ACUTE_MARK),
        is_decomposed(GRAVE_MARK),
        is_decomposed(CIRCUMFLEX_MARK),
        is_decomposed(DIAERESIS_MARK),
{
}

proof fn lemma_nfd_all_of_decomposed(d: Seq<char>)
    requires
        forall|k: int| 0 <= k < d.len() ==> is_decomposed(#[trigger] d[k]),
    ensures
        nfd_all(d) == d,
    decreases d.len(),
{
    if d.len() > 0 {
        lemma_nfd_all_of_decomposed(d.drop_last());
        assert(d.drop_last() + seq![d.last()] =~= d);
    }
}

proof fn lemma_nfd_parts(c: char)
    ensures
        1 <= nfd(c).len() <= 3,
        forall|k: int| 0 <= k < nfd(c).len() ==> is_decomposed(#[trigger] nfd(c)[k]),
{
    let d = nfd(c);
    let u = c as int;
    lemma_marks_stable();
    if in_extended_block(u) {
        lemma_base_stable((u - 0x1F00) / 8);
    } else {
        assert(is_decomposed('α') && is_decomposed('ε') && is_decomposed('η') && is_decomposed('ι'));
        assert(is_decomposed('ο') && is_decomposed('υ') && is_decomposed('ω'));
        assert(is_decomposed('Α') && is_decomposed('Ε') && is_decomposed('Η') && is_decomposed('Ι'));
        assert(is_decomposed('Ο') && is_decomposed('Υ') && is_decomposed('Ω'));
        if d == seq![c] {
            assert(is_decomposed(c));
        }
    }
    assert forall|k: int| 0 <= k < d.len() implies is_decomposed(#[trigger] d[k]) by {}
}

/// Decomposing twice changes nothing more than decomposing once.
pub proof fn lemma_nfd_idempotent(c: char)
    ensures
        nfd_all(nfd(c)) == nfd(c),
{
    lemma_nfd_parts(c);
    lemma_nfd_all_of_decomposed(nfd(c));
}

/// A precomposed character classifies as its decomposition does.
pub proof fn lemma_precomposed_as_decomposed(c: char)
    ensures
        classify(seq![c]) == classify(nfd(c)),
{
    let s = seq![c];
    assert(s.drop_last() =~= Seq::<char>::empty());
    assert(nfd_all(s.drop_last()) == Seq::<char>::empty());
    assert(s.last() == c);
    assert(nfd_all(s) == nfd_all(s.drop_last()) + nfd(c));
    assert(nfd_all(s) =~= nfd(c));
    lemma_nfd_idempotent(c);
}

/// The order of a vowel's two combining marks does not change its classification.
pub proof fn lemma_mark_order(b: char, m1: char, m2: char)
    requires
        mark_kind(m1) != 0,
        mark_kind(m2) != 0,
        is_decomposed(b),
    ensures
        classify(seq![b, m1, m2]) == classify(seq![b, m2, m1]),
{
    lemma_marks_stable();
    lemma_nfd_all_of_decomposed(seq![b, m1, m2]);
    lemma_nfd_all_of_decomposed(seq![b, m2, m1]);
    let d1 = seq![b, m1, m2];
    let d2 = seq![b, m2, m1];
    assert(d1.subrange(1, 3) =~= seq![m1, m2]);
    assert(d2.subrange(1, 3) =~= seq![m2, m1]);
}

/// Whether `d` spells what `e` spells: the same base letter followed by the
/// same marks, the two marks of a three-character spelling in either order.
pub open spec fn same_spelling(d: Seq<char>, e: Seq<char>) -> bool {
    &&& d.len() == e.len()
    &&& 1 <= d.len() <= 3
    &&& d[0] == e[0]
    &&& d.len() == 2 ==> d[1] == e[1]
    &&& d.len() == 3 ==> (d[1] == e[1] && d[2] == e[2]) || (d[1] == e[2] && d[2] == e[1])
}

/// Two spellings of one letter with the same marks classify alike.
pub proof fn lemma_spelling_keeps_class(d: Seq<char>, e: Seq<char>)
    requires
        same_spelling(d, e),
    ensures
        classify_decomposed(d) == classify_decomposed(e),
{
    if d.len() == 1 {
        assert(d =~= e);
    } else if d.len() == 2 {
        assert(d =~= e);
    } else {
        assert(d.subrange(1, 3) =~= seq![d[1], d[2]]);
        assert(e.subrange(1, 3) =~= seq![e[1], e[2]]);
    }
}

/// Encoding equivalence: a precomposed character classifies exactly as its
/// base letter followed by its combining marks, written in either order.
pub proof fn lemma_encoding_equivalence(c: char, d: Seq<char>)
    requires
        same_spelling(d, nfd(c)),
    ensures
        classify(seq![c]) == classify(d),
{
    lemma_precomposed_as_decomposed(c);
    lemma_nfd_idempotent(c);
    lemma_nfd_parts(c);
    assert forall|k: int| 0 <= k < d.len() implies is_decomposed(#[trigger] d[k]) by {
        if k == 0 {
            assert(d[0] == nfd(c)[0]);
        } else if k == 1 {
            assert(d[1] == nfd(c)[1] || d[1] == nfd(c)[2]);
        } else {
            assert(d[2] == nfd(c)[2] || d[2] == nfd(c)[1]);
        }
    }
    lemma_nfd_all_of_decomposed(d);
    lemma_spelling_keeps_class(d, nfd(c));
}

} // verus!
