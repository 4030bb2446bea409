use kana_ukrainian::options::Options;
use kana_ukrainian::to_ukrainian::{to_ukrainian, to_ukrainian_with_opt, transliterate};
use kana_ukrainian::to_ukrainian_node_tree::ukrainian_tree;

#[test]
fn to_ukrainian_sane_defaults() {
    assert_eq!(to_ukrainian(""), "");
}

#[test]
fn use_the_upcase_katakana_flag_to_preserve_casing_works_for_katakana() {
    assert_eq!(
        to_ukrainian_with_opt(
            "ワニカニ",
            Options {
                upcase_katakana: true,
                ..Default::default()
            }
        ),
        "ВАНІКАНІ"
    );
}

#[test]
fn converts_long_dash_in_hiragana_to_hyphen() {
    assert_eq!(to_ukrainian("ばつげーむ"), "бацуґе-му");
}

#[test]
fn doesnt_confuse_one_kanji_for_long_dash() {
    assert_eq!(to_ukrainian("一抹げーむ"), "一抹ґе-му");
}

#[test]
fn spaces_must_be_manually_entered() {
    assert_ne!(to_ukrainian("わにかにがすごいだ"), "ванікані ґа суґоі да");
}

#[test]
fn double_and_single_n() {
    assert_eq!(to_ukrainian("きんにくまん"), "кіннікуман");
}

#[test]
fn n_extravaganza() {
    assert_eq!(to_ukrainian("んんにんにんにゃんやん"), "нннінніннян'ян");
}

#[test]
fn double_consonants() {
    assert_eq!(
        to_ukrainian("かっぱ　たった　しゅっしゅ ちゃっちゃ　やっつ"),
        "каппа татта шюшшю чяччя яццу"
    );
}

#[test]
fn xx_double_consonants() {
    assert_eq!(to_ukrainian("かっぱ"), "каппа");
}

#[test]
fn small_tsu_doesnt_transliterate() {
    assert_eq!(to_ukrainian("っ"), "");
}

#[test]
fn small_kata_ke_doesnt_transliterate() {
    assert_eq!(to_ukrainian("ヶ"), "ヶ");
}

#[test]
fn small_kata_ka_doesnt_transliterate() {
    assert_eq!(to_ukrainian("ヵ"), "ヵ");
}

#[test]
fn small_ya() {
    assert_eq!(to_ukrainian("ゃ"), "я");
}

#[test]
fn small_yu() {
    assert_eq!(to_ukrainian("ゅ"), "ю");
}

#[test]
fn small_yo() {
    assert_eq!(to_ukrainian("ょ"), "йо");
}

#[test]
fn small_a() {
    assert_eq!(to_ukrainian("ぁ"), "а");
}

#[test]
fn small_i() {
    assert_eq!(to_ukrainian("ぃ"), "і");
}

#[test]
fn small_u() {
    assert_eq!(to_ukrainian("ぅ"), "у");
}

#[test]
fn small_e() {
    assert_eq!(to_ukrainian("ぇ"), "е");
}

#[test]
fn small_o() {
    assert_eq!(to_ukrainian("ぉ"), "о");
}

#[test]
fn onyomi() {
    assert_eq!(to_ukrainian("おんよみ"), "онйомі");
}

#[test]
fn n_before_yo_a_and_yu() {
    assert_eq!(to_ukrainian("んよ んあ んゆ"), "нйо n'a н'ю");
}

#[test]
fn shin_yo() {
    assert_eq!(to_ukrainian("シンヨ"), "шінйо");
}

#[test]
fn katakana_sentence() {
    assert_eq!(to_ukrainian("ワニカニ　ガ　スゴイ　ダ"), "ванікані ґа суґой да");
}

#[test]
fn hiragana_sentence() {
    assert_eq!(to_ukrainian("わにかに　が　すごい　だ"), "ванікані ґа суґой да");
}

#[test]
fn mixed_kana_sentence() {
    assert_eq!(to_ukrainian("ワニカニ　が　すごい　だ"), "ванікані ґа суґой да");
}

#[test]
fn capitals_for_the_katakana_of_a_mixed_kana_sentence() {
    assert_eq!(
        to_ukrainian_with_opt(
            "ワニカニ　が　すごい　だ",
            Options {
                upcase_katakana: true,
            }
        ),
        "ВАНІКАНІ ґа суґой да"
    );
}

#[test]
fn capitals_are_the_small_letters_in_upper_case() {
    let small = to_ukrainian_with_opt("ワニカニ", Options { upcase_katakana: false });
    let capitals = to_ukrainian_with_opt("ワニカニ", Options { upcase_katakana: true });
    assert_eq!(small, "ванікані");
    assert_eq!(capitals, small.to_uppercase());
}

#[test]
fn default_options_ask_for_no_capitals() {
    assert_eq!(Options::default().upcase_katakana, false);
    assert_eq!(to_ukrainian_with_opt("ワニカニ", Options::default()), "ванікані");
}

#[test]
fn long_dash_after_katakana_is_a_hyphen() {
    assert_eq!(to_ukrainian("スーパー"), "су-па-");
    assert_eq!(to_ukrainian("缶コーヒー"), "缶ко-хі-");
}

#[test]
fn long_dash_between_katakana_is_written_with_them_in_capitals() {
    assert_eq!(
        to_ukrainian_with_opt("スーパー", Options { upcase_katakana: true }),
        "СУ-ПА-"
    );
}

#[test]
fn n_before_a_vowel_is_set_apart_and_before_a_consonant_is_not() {
    assert_eq!(to_ukrainian("んい"), "н'ї");
    assert_eq!(to_ukrainian("んう"), "н'у");
    assert_eq!(to_ukrainian("んや"), "н'я");
    assert_eq!(to_ukrainian("んか"), "нка");
    assert_eq!(to_ukrainian("んに"), "нні");
}

#[test]
fn n_before_a_labial_is_written_m() {
    assert_eq!(to_ukrainian("さんぽ"), "сампо");
    assert_eq!(to_ukrainian("しんぶん"), "шімбун");
}

#[test]
fn kanji_between_kana_passes_through() {
    assert_eq!(to_ukrainian("お腹がすいた"), "о腹ґасуйта");
    assert_eq!(to_ukrainian("缶"), "缶");
}

#[test]
fn unmapped_characters_pass_through_one_by_one() {
    assert_eq!(to_ukrainian("abc123漢字"), "abc123漢字");
    assert_eq!(to_ukrainian("hello world"), "hello world");
    assert_eq!(to_ukrainian("aかb"), "aкаb");
}

#[test]
fn i_after_a_vowel_is_short() {
    assert_eq!(to_ukrainian("かい"), "кай");
    assert_eq!(to_ukrainian("カイ"), "кай");
    assert_eq!(to_ukrainian("すごい"), "суґой");
    assert_eq!(to_ukrainian("きい"), "кій");
}

#[test]
fn i_at_the_start_or_after_a_consonant_is_a_vowel() {
    assert_eq!(to_ukrainian("い"), "і");
    assert_eq!(to_ukrainian("んい"), "н'ї");
    assert_eq!(to_ukrainian("aい"), "aі");
}

#[test]
fn marked_i_after_a_vowel_is_a_syllable() {
    assert_eq!(to_ukrainian("か_い"), "каї");
    assert_eq!(to_ukrainian("か_イ"), "каї");
    assert_eq!(to_ukrainian("か_いえ"), "каїє");
    assert_eq!(to_ukrainian("か_イエ"), "каїє");
}

#[test]
fn the_i_behind_a_marked_i_is_read_afresh() {
    assert_eq!(to_ukrainian("あ_い_い"), "аїі");
    assert_eq!(to_ukrainian("あ_いい"), "аїі");
}

#[test]
fn markers_that_mark_nothing_are_dropped() {
    assert_eq!(to_ukrainian("_"), "");
    assert_eq!(to_ukrainian("a_b"), "ab");
    assert_eq!(to_ukrainian("か_か"), "кака");
    assert_eq!(to_ukrainian("_い"), "і");
}

#[test]
fn e_after_a_run_that_ends_in_i_is_iotated() {
    assert_eq!(to_ukrainian("きえ"), "кіє");
    assert_eq!(to_ukrainian("にえ"), "ніє");
    assert_eq!(to_ukrainian("えき"), "екі");
}

#[test]
fn a_run_of_mixed_scripts_is_never_in_capitals() {
    let capitals = Options { upcase_katakana: true };
    assert_eq!(to_ukrainian_with_opt("キャ", capitals), "КЯ");
    assert_eq!(to_ukrainian_with_opt("キゃ", capitals), "кя");
    assert_eq!(to_ukrainian_with_opt("きャ", capitals), "кя");
    assert_eq!(to_ukrainian_with_opt("きゃ", capitals), "кя");
}

#[test]
fn i_read_as_short_after_katakana_stays_small() {
    let capitals = Options { upcase_katakana: true };
    assert_eq!(to_ukrainian_with_opt("カイ", capitals), "КАй");
    assert_eq!(to_ukrainian_with_opt("スゴイ", capitals), "СУҐОй");
}

#[test]
fn text_without_katakana_is_the_same_with_and_without_capitals() {
    let capitals = Options { upcase_katakana: true };
    for text in ["わにかに　が　すごい　だ", "abc123漢字", "か_い", ""] {
        assert_eq!(to_ukrainian_with_opt(text, capitals), to_ukrainian(text));
    }
}

#[test]
fn punctuation_of_the_table() {
    assert_eq!(to_ukrainian("！？"), "!?");
    assert_eq!(to_ukrainian("、。"), ",.");
    assert_eq!(to_ukrainian("〜"), "~");
    assert_eq!(to_ukrainian("・"), "/");
    assert_eq!(to_ukrainian("　"), " ");
}

#[test]
fn the_longest_run_wins() {
    assert_eq!(to_ukrainian("きゃ"), "кя");
    assert_eq!(to_ukrainian("き"), "кі");
    assert_eq!(to_ukrainian("きょう"), "кьо");
    assert_eq!(to_ukrainian("っきゃ"), "ккя");
    assert_eq!(to_ukrainian("きゃく"), "кяку");
}

#[test]
fn transliterate_with_a_tree_built_once() {
    let tree = ukrainian_tree();
    assert!(tree.is_sorted());
    assert_eq!(transliterate(&tree, "かっぱ", Options::default()), "каппа");
    assert_eq!(transliterate(&tree, "カッパ", Options { upcase_katakana: true }), "КАППА");
    assert_eq!(transliterate(&tree, "", Options::default()), "");
}

#[test]
fn a_long_text_is_written_to_its_end() {
    let text = "わにかに　が　すごい　だ".repeat(500);
    let written = to_ukrainian(&text);
    assert_eq!(written, "ванікані ґа суґой да".repeat(500));
}
