use greek_syllables::{
    categorise, is_dipthong, joinable_consonant, split_clusters, syllables, Accent, Breathing,
};

#[test]
fn empty_word_has_no_syllables() {
    assert!(syllables("").is_empty());
}

#[test]
fn syllables_join_back_to_word() {
    for w in ["περιεπατήσαμεν", "ἀετός", "σaσ", "μωϋσῆν", "στρατιοτης", "ωϋ", "a1-b"] {
        let s = syllables(w);
        assert_eq!(s.concat(), w);
        assert!(s.iter().all(|x| !x.is_empty()));
    }
}

#[test]
fn diaeresis_after_plain_vowel_leaves_no_empty_syllable() {
    assert_eq!(syllables("ωϋ"), ["ω", "ϋ"]);
    assert_eq!(syllables("αϋ"), ["α", "ϋ"]);
}

#[test]
fn precomposed_and_decomposed_classify_alike() {
    let nfc = categorise("\u{1F04}");
    for g in ["\u{3B1}\u{313}\u{301}", "\u{3B1}\u{301}\u{313}"] {
        assert_eq!(categorise(g), nfc);
    }
    assert_eq!(nfc, ('α', "a", true, Breathing::Smooth, Accent::Acute, false));
    let rough = categorise("\u{1F55}");
    assert_eq!(rough, categorise("\u{3C5}\u{314}\u{301}"));
    assert_eq!(rough, ('υ', "u", true, Breathing::Rough, Accent::Acute, false));
    assert_eq!(categorise("\u{1FB6}"), categorise("\u{3B1}\u{342}"));
    assert_eq!(categorise("\u{1FB6}"), ('α', "a", true, Breathing::Unmarked, Accent::Circumflex, false));
    assert_eq!(categorise("\u{3CB}"), categorise("\u{3C5}\u{308}"));
    assert_eq!(categorise("\u{3CB}"), ('υ', "u", true, Breathing::Unmarked, Accent::Unaccented, true));
}

#[test]
fn nfc_and_nfd_words_split_alike() {
    let nfc = syllables("ἀετός");
    let nfd = syllables("\u{3B1}\u{313}\u{3B5}\u{3C4}\u{3BF}\u{301}\u{3C2}");
    assert_eq!(nfc.len(), nfd.len());
    assert_eq!(nfd, ["\u{3B1}\u{313}", "ε", "\u{3C4}\u{3BF}\u{301}\u{3C2}"]);
    assert_eq!(nfc, ["ἀ", "ε", "τός"]);
}

#[test]
fn uppercase_word_splits_like_lowercase() {
    assert_eq!(syllables("ΧΡΙΣΤΟΣ"), ["ΧΡΙ", "ΣΤΟΣ"]);
    assert_eq!(syllables("χριστος"), ["χρι", "στος"]);
    assert_eq!(syllables("ΣΤΡΑΤΙΟΤΗΣ"), ["ΣΤΡΑ", "ΤΙ", "Ο", "ΤΗΣ"]);
    assert_eq!(categorise("Ἄ"), categorise("ἄ"));
}

#[test]
fn non_greek_word_splits_per_grapheme() {
    assert_eq!(syllables("abc"), ["a", "b", "c"]);
    assert_eq!(syllables("e\u{301}x"), ["e\u{301}", "x"]);
}

#[test]
fn unknown_graphemes_classify_as_not_greek() {
    assert_eq!(categorise("a"), ('\0', "", false, Breathing::Unmarked, Accent::Unaccented, false));
    assert_eq!(categorise("β\u{301}"), ('\0', "", false, Breathing::Unmarked, Accent::Unaccented, false));
    assert_eq!(categorise("ε\u{342}"), ('\0', "", false, Breathing::Unmarked, Accent::Unaccented, false));
}

#[test]
fn sigma_forms_share_one_letter() {
    for g in ["σ", "ς", "Σ"] {
        assert_eq!(categorise(g).0, 'σ');
        assert_eq!(categorise(g).1, "s");
    }
}

#[test]
fn rough_omicron_transliteration() {
    assert_eq!(categorise("ὁ").1, "i");
    assert_eq!(categorise("ὅ").1, "o");
    assert_eq!(categorise("θ").1, "th");
}

#[test]
fn consonant_clusters_split_or_join() {
    assert_eq!(syllables("αρστα"), ["αρ", "στα"]);
    assert_eq!(syllables("αστρα"), ["α", "στρα"]);
    assert_eq!(syllables("αμβλυ"), ["αμ", "βλυ"]);
}

#[test]
fn pair_tables() {
    assert!(is_dipthong('α', 'ι'));
    assert!(is_dipthong('η', 'υ'));
    assert!(!is_dipthong('α', 'α'));
    assert!(!is_dipthong('ι', 'α'));
    assert!(joinable_consonant('σ', 'τ'));
    assert!(joinable_consonant('χ', 'ρ'));
    assert!(!joinable_consonant('ρ', 'σ'));
    assert!(!joinable_consonant('τ', 'σ'));
}

#[test]
fn split_clusters_takes_given_clusters() {
    let gs: Vec<String> = ["ἀ", "ε", "τ", "ό", "ς"].iter().map(|s| s.to_string()).collect();
    assert_eq!(split_clusters(&gs), ["ἀ", "ε", "τός"]);
    let empty: Vec<String> = Vec::new();
    assert!(split_clusters(&empty).is_empty());
}

#[test]
fn diaeresis_with_accent_splits_alike_in_every_spelling() {
    assert_eq!(syllables("κ\u{390}κ"), ["κ", "\u{390}κ"]);
    assert_eq!(syllables("κ\u{3B9}\u{308}\u{301}κ"), ["κ", "\u{3B9}\u{308}\u{301}κ"]);
    assert_eq!(syllables("κ\u{3B9}\u{301}\u{308}κ"), ["κ", "\u{3B9}\u{301}\u{308}κ"]);
    assert_eq!(syllables("Κ\u{399}\u{308}\u{301}Κ"), ["Κ", "\u{399}\u{308}\u{301}Κ"]);
}

#[test]
fn diaeresis_with_accent_precomposed_forms() {
    let cases = [
        ("\u{390}", "\u{3B9}\u{308}\u{301}"),
        ("\u{3B0}", "\u{3C5}\u{308}\u{301}"),
        ("\u{1FD2}", "\u{3B9}\u{308}\u{300}"),
        ("\u{1FD3}", "\u{3B9}\u{308}\u{301}"),
        ("\u{1FD7}", "\u{3B9}\u{308}\u{342}"),
        ("\u{1FE2}", "\u{3C5}\u{308}\u{300}"),
        ("\u{1FE3}", "\u{3C5}\u{308}\u{301}"),
        ("\u{1FE7}", "\u{3C5}\u{308}\u{342}"),
    ];
    for (nfc, nfd) in cases {
        let c = categorise(nfc);
        assert_eq!(c, categorise(nfd));
        assert!(c.2 && c.5);
        assert_eq!(c.3, Breathing::Unmarked);
        assert_ne!(c.4, Accent::Unaccented);
    }
    assert_eq!(categorise("\u{1FD7}").4, Accent::Circumflex);
    assert_eq!(categorise("\u{3B0}").0, 'υ');
}

#[test]
fn decomposed_spellings_match_precomposed() {
    assert_eq!(categorise("α\u{313}\u{301}"), categorise("ἄ"));
    assert_eq!(categorise("α\u{301}\u{313}"), categorise("ἄ"));
    assert_eq!(categorise("α\u{314}"), categorise("ἁ"));
    assert_eq!(categorise("ο\u{313}\u{300}"), categorise("ὂ"));
    assert_eq!(categorise("υ\u{308}"), categorise("ϋ"));
    assert_eq!(syllables("οι\u{314}"), ["οι\u{314}"]);
    assert_eq!(syllables("οἱ"), ["οἱ"]);
}

#[test]
fn uppercase_decomposed_word_splits_like_lowercase() {
    assert_eq!(syllables("οὔτε"), ["οὔ", "τε"]);
    assert_eq!(syllables("ΟΥ\u{313}\u{301}ΤΕ"), ["ΟΥ\u{313}\u{301}", "ΤΕ"]);
}

#[test]
fn breathing_is_the_mark_present() {
    assert_eq!(categorise("ά").3, Breathing::Unmarked);
    assert_eq!(categorise("ά").4, Accent::Acute);
    assert_eq!(categorise("ὰ").3, Breathing::Unmarked);
    assert_eq!(categorise("ᾶ").3, Breathing::Unmarked);
    assert_eq!(categorise("ἀ").3, Breathing::Smooth);
    assert_eq!(categorise("ἃ").3, Breathing::Rough);
    assert_eq!(categorise("ἃ").4, Accent::Grave);
}

#[test]
fn no_more_syllables_than_clusters() {
    for w in ["ωϋ", "αααα", "abc", "στρατιοτης", ""] {
        let n = w.chars().count();
        assert!(syllables(w).len() <= n);
    }
}
