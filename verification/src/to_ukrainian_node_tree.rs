//! The table of the transliteration: each run of kana that has a rendering of
//! its own, with that rendering in Ukrainian Cyrillic.

use vstd::prelude::*;
use crate::node_tree::{table_of, Node, Table};

verus! {

/// The entries of the table: a run of hiragana, or a mark, and what is
/// written for it. Katakana is looked up as the hiragana of the same sound.
///
/// A run stands here whenever it is written otherwise than its parts one
/// after the other: a consonant doubled by `っ`, a syllable contracted with a
/// small `ゃ`, `ゅ` or `ょ`, an `ん` before a vowel, a labial or a bracket.
pub const UKRAINIAN_TABLE: [(&'static str, &'static str); 496] = [
    ("\u{3000}", " "),
    ("、", ","),
    ("。", "."),
    ("「", "'"),
    ("」", "’"),
    ("『", "“"),
    ("』", "”"),
    ("〜", "~"),
    ("ぁ", "а"),
    ("ぁい", "ай"),
    ("あ", "а"),
    ("あい", "ай"),
    ("ぃ", "і"),
    ("ぃぇ", "i'є"),
    ("ぃぃ", "ії"),
    ("い", "і"),
    ("いえ", "іє"),
    ("いえい", "ієї"),
    ("いい", "ії"),
    ("いち", "їчі"),
    ("ぅ", "у"),
    ("う", "у"),
    ("ぇ", "е"),
    ("え", "е"),
    ("えい", "ей"),
    ("ぉ", "о"),
    ("お", "о"),
    ("おう", "о"),
    ("か", "ка"),
    ("かい", "кай"),
    ("かいち", "каїчі"),
    ("かあ", "ка"),
    ("が", "ґа"),
    ("がい", "ґай"),
    ("がいち", "ґаїчі"),
    ("がいも", "ґаїмо"),
    ("き", "кі"),
    ("きい", "кій"),
    ("きいち", "кіїчі"),
    ("きぇ", "к'є"),
    ("きゃ", "кя"),
    ("きゅ", "кю"),
    ("きょ", "кьо"),
    ("きょう", "кьо"),
    ("ぎ", "ґі"),
    ("ぎぃ", "ґій"),
    ("ぎぇ", "ґ'є"),
    ("ぎゃ", "ґя"),
    ("ぎゅ", "ґю"),
    ("ぎょ", "ґьо"),
    ("ぎょう", "ґьо"),
    ("く", "ку"),
    ("くい", "куй"),
    ("くいな", "куїна"),
    ("くぃ", "куй"),
    ("くぇ", "к'є"),
    ("くゃ", "кя"),
    ("くゅ", "кю"),
    ("くょ", "кьо"),
    ("くょう", "кьо"),
    ("ぐ", "ґу"),
    ("ぐう", "ґу"),
    ("け", "ке"),
    ("けい", "кей"),
    ("げ", "ґе"),
    ("こ", "ко"),
    ("ご", "ґо"),
    ("さ", "са"),
    ("さい", "сай"),
    ("ざ", "дза"),
    ("し", "ші"),
    ("しぃ", "шій"),
    ("しぇ", "ш'є"),
    ("しゃ", "шя"),
    ("しゅ", "шю"),
    ("しゅう", "шю"),
    ("しょ", "шьо"),
    ("しょう", "шьо"),
    ("じ", "джі"),
    ("じい", "джій"),
    ("じいえ", "джіїє"),
    ("じぇ", "дж'є"),
    ("じゃ", "джя"),
    ("じゅ", "джю"),
    ("じょ", "джьо"),
    ("じょう", "джьо"),
    ("す", "су"),
    ("ず", "дзу"),
    ("ずい", "дзуй"),
    ("せ", "се"),
    ("せい", "сей"),
    ("ぜ", "дзе"),
    ("そ", "со"),
    ("そう", "со"),
    ("ぞ", "дзо"),
    ("ぞう", "дзо"),
    ("た", "та"),
    ("たい", "тай"),
    ("だ", "да"),
    ("だい", "дай"),
    ("ち", "чі"),
    ("ちぃ", "чій"),
    ("ちぇ", "ч'є"),
    ("ちゃ", "чя"),
    ("ちゅ", "чю"),
    ("ちょ", "чьо"),
    ("ちょう", "чьо"),
    ("ぢ", "джі"),
    ("ぢぃ", "джій"),
    ("ぢぇ", "дж'є"),
    ("ぢゃ", "джя"),
    ("ぢゅ", "джю"),
    ("ぢょ", "джьо"),
    ("ぢょう", "джьо"),
    ("つ", "цу"),
    ("つい", "цуй"),
    ("ついど", "цуїдо"),
    ("づ", "дзу"),
    ("て", "те"),
    ("で", "де"),
    ("でぃ", "ді"),
    ("と", "то"),
    ("とう", "то"),
    ("ど", "до"),
    ("どう", "до"),
    ("な", "на"),
    ("ない", "най"),
    ("に", "ні"),
    ("にい", "нії"),
    ("にぇ", "н'є"),
    ("にゃ", "ня"),
    ("にゅ", "ню"),
    ("にょ", "ньо"),
    ("にょう", "ньо"),
    ("ぬ", "ну"),
    ("ぬい", "нуй"),
    ("ね", "не"),
    ("ねえ", "не"),
    ("の", "но"),
    ("のい", "ной"),
    ("は", "ха"),
    ("はい", "хай"),
    ("ば", "ба"),
    ("ばあ", "ба"),
    ("ぱ", "па"),
    ("ぱい", "пай"),
    ("ひ", "хі"),
    ("ひぃ", "хій"),
    ("ひぇ", "х'є"),
    ("ひゃ", "хя"),
    ("ひゅ", "хю"),
    ("ひょ", "хьо"),
    ("ひょう", "хьо"),
    ("び", "бі"),
    ("びぃ", "бій"),
    ("びぇ", "б'є"),
    ("びゃ", "бя"),
    ("びゅ", "бю"),
    ("びょ", "бьо"),
    ("びょう", "бьо"),
    ("ぴ", "пі"),
    ("ぴぃ", "пій"),
    ("ぴぇ", "п'є"),
    ("ぴゃ", "пя"),
    ("ぴゅ", "пю"),
    ("ぴょ", "пьо"),
    ("ぴょう", "пьо"),
    ("ふ", "фу"),
    ("ふぃ", "фій"),
    ("ふぇ", "ф'є"),
    ("ふゃ", "фя"),
    ("ふゅ", "фю"),
    ("ふょ", "фьо"),
    ("ふょう", "фьо"),
    ("ぶ", "бу"),
    ("ぷ", "пу"),
    ("へ", "хе"),
    ("へい", "хей"),
    ("べ", "бе"),
    ("べい", "бей"),
    ("ぺ", "пе"),
    ("ぺい", "пей"),
    ("ほ", "хо"),
    ("ぼ", "бо"),
    ("ぽ", "по"),
    ("ま", "ма"),
    ("まい", "май"),
    ("み", "мі"),
    ("みぃ", "мій"),
    ("みぇ", "м'є"),
    ("みゃ", "мя"),
    ("みゅ", "мю"),
    ("みょ", "мьо"),
    ("みょう", "мьо"),
    ("む", "му"),
    ("むい", "муй"),
    ("むいち", "муїчі"),
    ("め", "ме"),
    ("めい", "мей"),
    ("も", "мо"),
    ("もい", "мой"),
    ("ゃ", "я"),
    ("や", "я"),
    ("ゅ", "ю"),
    ("ゆ", "ю"),
    ("ゆい", "юй"),
    ("ゆう", "юу"),
    ("ゆうい", "юї"),
    ("ょ", "йо"),
    ("よ", "йо"),
    ("よう", "йо"),
    ("ら", "ра"),
    ("り", "рі"),
    ("りぃ", "рій"),
    ("りぃち", "ріїчі"),
    ("りえ", "р'є"),
    ("りや", "ря"),
    ("りゅ", "рю"),
    ("りゅう", "рю"),
    ("りょ", "рьо"),
    ("りょう", "рьо"),
    ("る", "ру"),
    ("れ", "ре"),
    ("ろ", "ро"),
    ("ろう", "ро"),
    ("ゎ", "ва"),
    ("わ", "ва"),
    ("わい", "вай"),
    ("わいず", "ваїдзу"),
    ("ゐ", "ві"),
    ("ゑ", "ве"),
    ("を", "во"),
    ("ん", "н"),
    ("んあ", "n'a"),
    ("んい", "н'ї"),
    ("ん「", "н'"),
    ("ん「い", "н'ї"),
    ("ん「あ", "n'a"),
    ("ん「う", "н'у"),
    ("ん「え", "н'є"),
    ("ん「お", "н'о"),
    ("ん「や", "н'я"),
    ("ん「ゆ", "н'ю"),
    ("ん「よ", "нйо"),
    ("ん「よう", "нйо"),
    ("んう", "н'у"),
    ("んえ", "н'є"),
    ("んお", "н'о"),
    ("んや", "н'я"),
    ("んゆ", "н'ю"),
    ("んよ", "нйо"),
    ("んよう", "нйо"),
    ("んま", "мма"),
    ("んみ", "ммі"),
    ("んみゃ", "ммя"),
    ("んみゅ", "ммю"),
    ("んみょ", "ммьо"),
    ("んみょう", "ммьо"),
    ("んむ", "мму"),
    ("んめ", "мме"),
    ("んも", "ммо"),
    ("んぱ", "мпа"),
    ("んぱい", "мпай"),
    ("んぴ", "мпі"),
    ("んぴゃ", "мпя"),
    ("んぴゅ", "мпю"),
    ("んぴょ", "мпьо"),
    ("んぴょう", "мпьо"),
    ("んぷ", "мпу"),
    ("んぺ", "мпе"),
    ("んぺい", "мпей"),
    ("んぽ", "мпо"),
    ("んば", "мба"),
    ("んび", "мбі"),
    ("んびゃ", "мбя"),
    ("んびゅ", "мбю"),
    ("んびょ", "мбьо"),
    ("んびょう", "мбьо"),
    ("んぶ", "мбу"),
    ("んべ", "мбе"),
    ("んぼ", "мбо"),
    ("ゔ", "ву"),
    ("ゔぃ", "вій"),
    ("ゔぇ", "в'є"),
    ("ゔゃ", "вя"),
    ("ゔゅ", "вю"),
    ("ゔょ", "вьо"),
    ("ゔょう", "вьо"),
    ("・", "/"),
    ("ー", "-"),
    ("！", "!"),
    ("（", "("),
    ("）", ")"),
    ("：", ":"),
    ("？", "?"),
    ("［", "["),
    ("］", "]"),
    ("｛", "{"),
    ("｝", "}"),
    ("っ", ""),
    ("っ\u{3000}", " "),
    ("っ、", ","),
    ("っ。", "."),
    ("っ「", "‘"),
    ("っ」", "’"),
    ("っ『", "“"),
    ("っ』", "”"),
    ("っ〜", "~"),
    ("っぁ", "а"),
    ("っあ", "а"),
    ("っぃ", "і"),
    ("っい", "і"),
    ("っぅ", "у"),
    ("っう", "у"),
    ("っぇ", "е"),
    ("っえ", "е"),
    ("っぉ", "о"),
    ("っお", "о"),
    ("っか", "кка"),
    ("っかい", "ккай"),
    ("っが", "ґґа"),
    ("っき", "ккі"),
    ("っきぃ", "ккій"),
    ("っきぇ", "кк'є"),
    ("っきゃ", "ккя"),
    ("っきゅ", "ккю"),
    ("っきょ", "ккьо"),
    ("っきょう", "ккьо"),
    ("っぎ", "ґґі"),
    ("っぎぃ", "ґґій"),
    ("っぎぇ", "ґґ'є"),
    ("っぎゃ", "ґґя"),
    ("っぎゅ", "ґґю"),
    ("っぎょ", "ґґьо"),
    ("っぎょう", "ґґьо"),
    ("っく", "кку"),
    ("っくぃ", "ккій"),
    ("っくぇ", "кк'є"),
    ("っくゃ", "ккя"),
    ("っくゅ", "ккю"),
    ("っくょ", "ккьо"),
    ("っくょう", "ккьо"),
    ("っぐ", "ґґу"),
    ("っけ", "кке"),
    ("っげ", "ґґе"),
    ("っこ", "кко"),
    ("っご", "ґґо"),
    ("っさ", "сса"),
    ("っざ", "ддза"),
    ("っし", "шші"),
    ("っしぃ", "шшій"),
    ("っしぇ", "шш'є"),
    ("っしゃ", "шшя"),
    ("っしゅ", "шшю"),
    ("っしょ", "шшьо"),
    ("っしょう", "шшьо"),
    ("っじ", "дджі"),
    ("っじぃ", "дджій"),
    ("っじぇ", "ддж'є"),
    ("っじゃ", "дджя"),
    ("っじゅ", "дджю"),
    ("っじょ", "дджьо"),
    ("っじょう", "дджьо"),
    ("っす", "ссу"),
    ("っず", "ддзу"),
    ("っせ", "ссе"),
    ("っぜ", "ддзе"),
    ("っそ", "ссо"),
    ("っぞ", "ддзо"),
    ("った", "тта"),
    ("っだ", "дда"),
    ("っち", "ччі"),
    ("っちぃ", "ччій"),
    ("っちぇ", "чч'є"),
    ("っちゃ", "ччя"),
    ("っちゅ", "ччю"),
    ("っちょ", "ччьо"),
    ("っちょう", "ччьо"),
    ("っぢ", "дджі"),
    ("っぢぃ", "дджій"),
    ("っぢぇ", "ддж'є"),
    ("っぢゃ", "дджя"),
    ("っぢゅ", "дджю"),
    ("っぢょ", "дджьо"),
    ("っぢょう", "дджьо"),
    ("っつ", "ццу"),
    ("っづ", "ддзу"),
    ("って", "тте"),
    ("っで", "дде"),
    ("っと", "тто"),
    ("っど", "ддо"),
    ("っな", "на"),
    ("っない", "най"),
    ("っに", "ні"),
    ("っにぃ", "ній"),
    ("っにぇ", "н'є"),
    ("っにゃ", "ня"),
    ("っにゅ", "ню"),
    ("っにょ", "нью"),
    ("っぬ", "ну"),
    ("っぬい", "нуй"),
    ("っね", "не"),
    ("っの", "но"),
    ("っは", "хха"),
    ("っば", "бба"),
    ("っぱ", "ппа"),
    ("っひ", "ххі"),
    ("っひぃ", "ххій"),
    ("っひぇ", "хх'є"),
    ("っひゃ", "ххя"),
    ("っひゅ", "ххю"),
    ("っひょ", "ххьо"),
    ("っひょう", "ххьо"),
    ("っび", "ббі"),
    ("っびぃ", "ббій"),
    ("っびぇ", "бб'є"),
    ("っびゃ", "ббя"),
    ("っびゅ", "ббю"),
    ("っびょ", "ббьо"),
    ("っびょう", "ббьо"),
    ("っぴ", "ппі"),
    ("っぴぃ", "ппій"),
    ("っぴぇ", "пп'є"),
    ("っぴゃ", "ппя"),
    ("っぴゅ", "ппю"),
    ("っぴょ", "ппьо"),
    ("っぴょう", "ппьо"),
    ("っふ", "ффу"),
    ("っふぃ", "ффій"),
    ("っふぇ", "фф'є"),
    ("っふゃ", "ффя"),
    ("っふゅ", "ффю"),
    ("っふょ", "ффьо"),
    ("っふょう", "ффьо"),
    ("っぶ", "ббу"),
    ("っぷ", "ппу"),
    ("っへ", "ххе"),
    ("っべ", "ббе"),
    ("っぺ", "ппе"),
    ("っほ", "ххо"),
    ("っぼ", "ббо"),
    ("っぽ", "ппо"),
    ("っま", "мма"),
    ("っみ", "ммі"),
    ("っみぃ", "ммій"),
    ("っみぇ", "мм'є"),
    ("っみゃ", "ммя"),
    ("っみゅ", "ммю"),
    ("っみょ", "ммьо"),
    ("っみょう", "ммьо"),
    ("っむ", "мму"),
    ("っめ", "мме"),
    ("っも", "ммо"),
    ("っゃ", "я"),
    ("っや", "я"),
    ("っゅ", "ю"),
    ("っゆ", "ю"),
    ("っゆい", "юй"),
    ("っょ", "ьо"),
    ("っょう", "ьо"),
    ("っよ", "ьо"),
    ("っよう", "ьо"),
    ("っら", "рра"),
    ("っり", "ррі"),
    ("っりぃ", "ррій"),
    ("っりぇ", "рр'є"),
    ("っりゃ", "рря"),
    ("っりゅ", "ррю"),
    ("っりょ", "ррьо"),
    ("っりょう", "ррьо"),
    ("っる", "рру"),
    ("っれ", "рре"),
    ("っろ", "рро"),
    ("っわ", "вва"),
    ("っゐ", "вві"),
    ("っゑ", "вве"),
    ("っを", "вво"),
    ("っん", "н"),
    ("っゔ", "вву"),
    ("っゔぃ", "ввій"),
    ("っゔぇ", "вв'є"),
    ("っゔゃ", "ввя"),
    ("っゔゅ", "ввю"),
    ("っゔょ", "ввьо"),
    ("っゔょう", "ввьо"),
    ("っ・", "/"),
    ("っー", "-"),
    ("っ！", "!"),
    ("っ（", "("),
    ("っ）", ")"),
    ("っ：", ":"),
    ("っ？", "?"),
    ("っ［", "["),
    ("っ］", "]"),
    ("っ｛", "{"),
    ("っ｝", "}"),
];

/// The table as a map from runs to renderings.
pub open spec fn ukrainian_table() -> Table {
    table_of(UKRAINIAN_TABLE@)
}

/// Builds the lookup tree of the table.
pub fn ukrainian_tree() -> (tree: Node)
    ensures
        tree.sorted(),
        tree@ == ukrainian_table(),
{
    Node::from_entries(&UKRAINIAN_TABLE)
}

} // verus!
