use kana_ukrainian::text::{chars_of, string_of};
use kana_ukrainian::to_ukrainian::{
    emit, iotate, is_all_katakana, is_kana_e, is_kana_i, read_glides, strip_markers,
};
use kana_ukrainian::to_ukrainian_node_tree::ukrainian_tree;

#[test]
fn kana_i_and_e() {
    assert!(is_kana_i('い'));
    assert!(is_kana_i('イ'));
    assert!(!is_kana_i('ぃ'));
    assert!(is_kana_e('え'));
    assert!(is_kana_e('エ'));
    assert!(!is_kana_e('い'));
}

#[test]
fn all_katakana_of_spans() {
    assert!(is_all_katakana(&chars_of("カタカナ")));
    assert!(is_all_katakana(&chars_of("スーパー")));
    assert!(is_all_katakana(&[]));
    assert!(!is_all_katakana(&chars_of("カタかナ")));
    assert!(!is_all_katakana(&chars_of("a")));
}

#[test]
fn glides_are_read_and_markers_kept_for_the_next_step() {
    assert_eq!(string_of(&read_glides(&chars_of("かい"))), "かй");
    assert_eq!(string_of(&read_glides(&chars_of("か_い"))), "かї");
    assert_eq!(string_of(&read_glides(&chars_of("か_いえ"))), "かїє");
    assert_eq!(string_of(&read_glides(&chars_of("か_か"))), "か_か");
    assert_eq!(string_of(&read_glides(&chars_of("か_"))), "か_");
    assert_eq!(string_of(&read_glides(&chars_of("_い"))), "_い");
    assert_eq!(string_of(&read_glides(&chars_of("いい"))), "いй");
    assert_eq!(string_of(&read_glides(&chars_of("っい"))), "っい");
    assert_eq!(string_of(&read_glides(&chars_of(""))), "");
}

#[test]
fn markers_are_stripped() {
    assert_eq!(string_of(&strip_markers(&chars_of("_a__b_"))), "ab");
    assert_eq!(string_of(&strip_markers(&chars_of("ab"))), "ab");
    assert_eq!(string_of(&strip_markers(&chars_of("___"))), "");
    assert_eq!(string_of(&strip_markers(&chars_of(""))), "");
}

#[test]
fn iotate_mends_e_after_i() {
    assert_eq!(string_of(&iotate(&chars_of("кіе"))), "кіє");
    assert_eq!(string_of(&iotate(&chars_of("іеіе"))), "ієіє");
    assert_eq!(string_of(&iotate(&chars_of("еі"))), "еі");
    assert_eq!(string_of(&iotate(&chars_of("е"))), "е");
    assert_eq!(string_of(&iotate(&chars_of("ке"))), "ке");
    assert_eq!(string_of(&iotate(&chars_of("ie"))), "ie");
    assert_eq!(string_of(&iotate(&chars_of(""))), "");
}

#[test]
fn emit_reads_case_from_the_characters_before_normalising() {
    let tree = ukrainian_tree();
    let kana = chars_of("わにa");
    assert_eq!(string_of(&emit(&tree, &chars_of("ワニa"), &kana, true)), "ВАНІa");
    assert_eq!(string_of(&emit(&tree, &chars_of("ワにa"), &kana, true)), "ВАніa");
    assert_eq!(string_of(&emit(&tree, &chars_of("ワニa"), &kana, false)), "ваніa");
    assert_eq!(string_of(&emit(&tree, &[], &[], true)), "");
}
