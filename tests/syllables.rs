use greek_syllables::{categorise, syllables, Accent, Breathing};

#[test]
fn test_categorise() {
    let (gc, c, vowel, breathing, accent, diaeresis) = categorise("α");
    assert_eq!(c, "a");
    assert_eq!(gc, 'α');
    assert_eq!(vowel, true);
    assert_eq!(breathing, Breathing::Unmarked);
    assert_eq!(accent, Accent::Unaccented);
    assert_eq!(diaeresis, false);

    let (gc, c, vowel, breathing, accent, _) = categorise("β");
    assert_eq!(c, "b");
    assert_eq!(gc, 'β');
    assert_eq!(vowel, false);
    assert_eq!(breathing, Breathing::Unmarked);
    assert_eq!(accent, Accent::Unaccented);

    let (gc, c, vowel, breathing, accent, _) = categorise("ὔ");
    assert_eq!(c, "u");
    assert_eq!(gc, 'υ');
    assert_eq!(vowel, true);
    assert_eq!(breathing, Breathing::Smooth);
    assert_eq!(accent, Accent::Acute);

    let (gc, c, vowel, breathing, accent, _) = categorise("Β");
    assert_eq!(c, "b");
    assert_eq!(gc, 'β');
    assert_eq!(vowel, false);
    assert_eq!(breathing, Breathing::Unmarked);
    assert_eq!(accent, Accent::Unaccented);
}

#[test]
fn test_invalid_characters() {
    // Invalid ascii found
    assert_eq!(syllables("σaσ"), ["σ", "a", "σ"]);
    assert_eq!(syllables("eχει"), ["e", "χει"]);
    assert_eq!(syllables("ἔχεi"), ["ἔ", "χε", "i"]);
    assert_eq!(syllables("ἔχeι"), ["ἔχ", "e", "ι"]);
}

#[test]
fn test_basic_words() {
    // NFC
    assert_eq!(syllables("αα"), ["α", "α"]);
    assert_eq!(syllables("καα"), ["κα", "α"]);
    assert_eq!(syllables("αλα"), ["α", "λα"]);
    assert_eq!(syllables("ἄμα"), ["ἄ", "μα"]);
    assert_eq!(syllables("ἀλά"), ["ἀ", "λά"]);
    assert_eq!(syllables("ἀλὰ"), ["ἀ", "λὰ"]);
    assert_eq!(syllables("ἈΛΆ"), ["Ἀ", "ΛΆ"]);
    assert_eq!(syllables("χριστος"), ["χρι", "στος"]);
    assert_eq!(syllables("χρίστος"), ["χρί", "στος"]);
    assert_eq!(syllables("περιπα"), ["πε", "ρι", "πα"]);
    assert_eq!(syllables("τραγος"), ["τρα", "γος"]);
    assert_eq!(syllables("στρατιοτης"), ["στρα", "τι", "ο", "της"]);
    assert_eq!(syllables("πιστευω"), ["πι", "στευ", "ω"]);
    assert_eq!(syllables("γυναικός"), ["γυ", "ναι", "κός"]);
    assert_eq!(syllables("φυω"), ["φυ", "ω"]);
    assert_eq!(syllables("σσσ"), ["σσσ"]);
    assert_eq!(syllables("μωϋσῆν"), ["μω", "ϋ", "σῆν"]);
    assert_eq!(syllables("ὄσπριον"), ["ὄ", "σπρι", "ον"]);
    assert_eq!(syllables("ὁσία"), ["ὁ", "σί", "α"]);
    assert_eq!(syllables("ὅτου"), ["ὅ", "του"]);
    assert_eq!(syllables("ἥτις"), ["ἥ", "τις"]);
    assert_eq!(syllables("αἵτινες"), ["αἵ", "τι", "νες"]);
    assert_eq!(syllables("οἵτινες"), ["οἵ", "τι", "νες"]);
    assert_eq!(syllables("περιεπατήσαμεν"), ["πε", "ρι", "ε", "πα", "τή", "σα", "μεν"]);

    // NFD
    assert_eq!(syllables("ἀετός"), ["ἀ", "ε", "τός"]);
    assert_eq!(syllables("ἀετὸν"), ["ἀ", "ε", "τὸν"]);
    assert_eq!(syllables("ὥσπερ"), ["ὥ", "σπερ"]); // provisional: the split of this word is not settled
    assert_eq!(syllables("ἔχει"), ["ἔ", "χει"]);
}
