use hnefatafl_copenhagen::futhorc::{words_to_runes, EnglishToRunes};

/// Dictionary lines in the format of the pronunciation dictionary: the word with a comma
/// after it, a tab, then its pronunciation in IPA.
const DICTIONARY: &str = "no,\tˈnoʊ\n\
apple,\tˈæpʌl\n\
banana,\tbʌˈnænʌ\n\
carrot,\tˈkæɹʌt\n\
abram's,\tˈeɪbɹʌmz\n\
absolut's,\tˈæbsʌlʊts\n\
company'll,\tˈkʌmpʌniʌl\n\
he'll,\thil\n\
ababa,\tʌbɑbʌ\n\
bottle,\tˈbɑtʌl\n\
wheel,\tˈwil\n\
any,\tˈɛni\n\
renaissance's,\tˌɹɛnʌˈsɑnsɪz\n\
we'll,\twil\n\
immigrants',\tˈɪmɪgɹʌnts\n\
who'd,\thud\n\
it'd,\tˈɪtʌd\n\
that'd,\tˈðætɪd\n\
XXXXX skipped\n\
the,\tðʌ\n";

fn dictionary() -> EnglishToRunes {
    EnglishToRunes::from_dictionary(DICTIONARY)
}

#[test]
fn know_no_etc() {
    let dictionary = dictionary();

    let mut words = String::new();
    words.push_str("no");
    let output = dictionary.translate(words);
    assert_eq!(output, "ᚾᚩ");

    let mut words = String::new();
    words.push_str("know");
    let output = dictionary.translate(words);
    assert_eq!(output, "ᚾᚩᚹ");
}

#[test]
fn newlines() {
    let dictionary = dictionary();

    let mut words = String::new();
    words.push_str("apple banana\ncarrot\n\n");
    let output = dictionary.translate(words);
    assert_eq!(output, "ᚫᛈᚢᛚ᛫ᛒᚢᚾᚫᚾᚪ\nᚳᚫᚱᚢᛏ\n\n");
}

#[test]
fn apostrophes() {
    let dictionary = dictionary();

    let mut words = String::new();
    words.push_str("abram's");
    let output = dictionary.translate(words);
    assert_eq!(output, "ᛠᛒᚱᚢᛗ'ᛋ");

    let mut words = String::new();
    words.push_str("absolut's");
    let output = dictionary.translate(words);
    assert_eq!(output, "ᚫᛒᛋᛋᚢᛚᚣᛏ'ᛋᛋ");

    let mut words = String::new();
    words.push_str("company'll");
    let output = dictionary.translate(words);
    assert_eq!(output, "ᚳᚢᛗᛈᚢᚾᛁ'ᚢᛚ");

    let mut words = String::new();
    words.push_str("he'll");
    let output = dictionary.translate(words);
    assert_eq!(output, "ᚻᛁ'ᛚ");
}

#[test]
fn final_schwa() {
    let dictionary = dictionary();

    let mut words = String::new();
    words.push_str("ababa");
    let output = dictionary.translate(words);
    assert_eq!(output, "ᚢᛒᚪᛒᚪ");

    let mut words = String::new();
    words.push_str("the");
    let output = dictionary.translate(words);
    assert_eq!(output, "ᚦᛖ");
}

#[test]
fn syllabic_consonants() {
    let dictionary = dictionary();

    let mut words = String::new();
    words.push_str("bottle");
    let output = dictionary.translate(words);
    assert_eq!(output, "ᛒᚪᛏᚢᛚ");
}

#[test]
fn ends_with_i() {
    let dictionary = dictionary();

    let mut words = String::new();
    words.push_str("wheel");
    let output = dictionary.translate(words);
    assert_eq!(output, "ᚹᛁᛁᛚ");

    let mut words = String::new();
    words.push_str("any");
    let output = dictionary.translate(words);
    assert_eq!(output, "ᛖᚾᛁ");
}

#[test]
fn i_apostrophe() {
    let dictionary = dictionary();

    let mut words = String::new();
    words.push_str("renaissance's");
    let output = dictionary.translate(words);
    assert_eq!(output, "ᚱᛖᚾᚢᛋᛋᚪᚾᛋᛋᛁ'ᛋ");

    let mut words = String::new();
    words.push_str("we'll");
    let output = dictionary.translate(words);
    assert_eq!(output, "ᚹᛁ'ᛚ");
}

#[test]
fn plural_possessive() {
    let dictionary = dictionary();

    let mut words = String::new();
    words.push_str("immigrants'");
    let output = dictionary.translate(words);
    assert_eq!(output, "ᛁᛗᛁᚷᚱᚢᚾᛏᛋᛋ'");
}

#[test]
fn apostrophe_d() {
    let dictionary = dictionary();

    let mut words = String::new();
    words.push_str("who'd");
    let output = dictionary.translate(words);
    assert_eq!(output, "ᚻᚣ'ᛞ");

    let mut words = String::new();
    words.push_str("it'd");
    let output = dictionary.translate(words);
    assert_eq!(output, "ᛁᛏ'ᚢᛞ");

    let mut words = String::new();
    words.push_str("that'd");
    let output = dictionary.translate(words);
    assert_eq!(output, "ᚦᚫᛏ'ᛁᛞ");
}

#[test]
fn punctuation_capitals_and_hyphens() {
    let dictionary = dictionary();
    // A final punctuation mark is kept, and the space after it stays a space.
    assert_eq!(dictionary.translate("No, apple.".to_string()), "ᚾᚩ, ᚫᛈᚢᛚ.");
    // Hyphenated parts are written one by one; unknown words stay as they are.
    assert_eq!(dictionary.translate("apple-pie".to_string()), "ᚫᛈᚢᛚ-pie");
    assert_eq!(dictionary.translate("  zebra  no".to_string()), "  zebra᛫᛫ᚾᚩ");
    assert_eq!(dictionary.translate_js("the".to_string()), "ᚦᛖ");
}

#[test]
fn dictionary_entries_and_words_to_runes() {
    let dictionary = dictionary();
    // The skipped line gives no entry, and the added entries come last.
    assert_eq!(dictionary.english_to_ipa.len(), 19 + 4);
    assert_eq!(dictionary.english_to_ipa[0], ("no".to_string(), "ˈnoʊ".to_string()));
    assert_eq!(
        dictionary.english_to_ipa[22],
        ("'tis".to_string(), "'tɪz".to_string())
    );
    assert_eq!(words_to_runes("Know apple".to_string(), DICTIONARY), "ᚾᚩᚹ᛫ᚫᛈᚢᛚ");
    assert_eq!(words_to_runes("'tis".to_string(), ""), "'ᛏᛁᛋ");
}

#[test]
fn ascii_case_leaves_the_runes_alone() {
    let dictionary = dictionary();
    assert_eq!(
        dictionary.translate("No Apple, THE Banana".to_string()),
        dictionary.translate("no apple, the banana".to_string())
    );
}
