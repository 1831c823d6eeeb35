use klyradb::dict::Dict;
use klyradb::i18n::{direction, locale_table, lang_subtag, normalize, Catalog, LocaleFile, FALLBACK};

fn file(path: &str, body: &str) -> LocaleFile {
    LocaleFile { path: path.into(), contents: Some(body.into()) }
}

fn shipped() -> Catalog {
    Catalog::load(vec![
        file("en.json", r#"{"app.title":"KlyraDB","btn.start":"Start","btn.stop":"Stop"}"#),
        file("es.json", r#"{"btn.start":"Iniciar"}"#),
        file("pt.json", r#"{"btn.start":"Iniciar","btn.stop":"Parar"}"#),
        file("pt_BR.json", r#"{"btn.stop":"Parar agora"}"#),
        file("ar.json", r#"{"btn.start":"ابدأ"}"#),
        file("README.md", "not a locale"),
    ])
    .expect("the shipped locales load")
}

#[test]
fn english_is_shipped_and_is_the_fallback() {
    let cat = shipped();
    assert!(cat.has(FALLBACK));
    assert!(cat.available().contains(&"en".to_string()));
}

#[test]
fn missing_key_falls_back_to_the_key_itself_never_blank() {
    let cat = shipped();
    let en = cat.for_code("en");
    assert_eq!(en.t("definitely.not.a.real.key"), "definitely.not.a.real.key");
    assert_eq!(en.t("btn.start"), "Start");
}

#[test]
fn a_partial_locale_is_completed_against_english() {
    let cat = shipped();
    let en = cat.for_code("en");
    let es = cat.for_code("es");
    for key in en.strings().keys() {
        assert!(es.strings().contains_key(&key), "es missing key {key}");
    }
    assert_eq!(es.t("btn.start"), "Iniciar");
    assert_eq!(es.t("btn.stop"), "Stop");
}

#[test]
fn unknown_locale_resolves_to_english() {
    let cat = shipped();
    assert_eq!(cat.for_code("xx").code, "en");
}

#[test]
fn region_code_falls_back_to_language_subtag() {
    let cat = shipped();
    if cat.has("pt") {
        assert_eq!(cat.for_code("pt-pt").code, "pt");
    }
    assert_eq!(cat.for_code("PT_br").code, "pt-br");
}

#[test]
fn rtl_locales_report_rtl_direction() {
    let cat = shipped();
    if cat.has("ar") {
        assert_eq!(cat.for_code("ar").dir, "rtl");
    }
    assert_eq!(cat.for_code("en").dir, "ltr");
}

#[test]
fn available_locales_are_sorted_and_skip_other_files() {
    let cat = shipped();
    assert_eq!(cat.available(), vec!["ar", "en", "es", "pt", "pt-br"]);
}

#[test]
fn broken_locale_files_are_reported() {
    let bad = Catalog::load(vec![file("en.json", r#"{"a":"b"}"#), file("de.json", "{not json")]);
    match bad {
        Err(e) => assert!(e.starts_with("locale de is not flat JSON: "), "{e}"),
        Ok(_) => panic!("a broken locale must be reported"),
    }
    let not_utf8 = Catalog::load(vec![LocaleFile { path: "fr.json".into(), contents: None }]);
    assert_eq!(not_utf8.err().unwrap(), "locale file is not UTF-8");
    let nested = Catalog::load(vec![file("it.json", r#"{"a":{"b":"c"}}"#)]);
    assert!(nested.is_err());
}

#[test]
fn environment_detection_follows_posix_precedence() {
    let cat = shipped();
    let env = vec![None, Some(String::new()), Some("es_ES.UTF-8".to_string())];
    assert_eq!(cat.detect(&env).code, "es");
    let env = vec![Some("pt_PT.UTF-8".to_string()), None, Some("es_ES.UTF-8".to_string())];
    assert_eq!(cat.detect(&env).code, "pt");
    let env = vec![Some("de_DE.UTF-8".to_string()), None, Some("ar_EG.UTF-8".to_string())];
    let lang = cat.detect(&env);
    assert_eq!(lang.code, "ar");
    assert_eq!(lang.dir, "rtl");
    assert_eq!(cat.detect(&vec![None, None, None]).code, "en");
}

#[test]
fn codes_are_normalized() {
    assert_eq!(normalize("  pt_BR "), "pt-br");
    assert_eq!(lang_subtag("pt-br"), "pt");
    assert_eq!(lang_subtag("en"), "en");
    assert_eq!(direction("he-il"), "rtl");
    assert_eq!(direction("fa"), "rtl");
    assert_eq!(direction("fr"), "ltr");
}

#[test]
fn a_dictionary_reads_back_what_was_written() {
    let mut d: Dict<u32> = Dict::new();
    d.insert("b".to_string(), 2);
    d.insert("a".to_string(), 1);
    d.insert("b".to_string(), 3);
    assert_eq!(d.get("b"), Some(&3));
    assert_eq!(d.get("a"), Some(&1));
    assert_eq!(d.get("c"), None);
    assert!(d.contains_key("a"));
    assert_eq!(d.keys(), vec!["a", "b"]);
    assert_eq!(d.pairs().len(), 2);
}

#[test]
fn a_parsed_locale_is_keyed_by_its_normalized_stem() {
    let (code, table) = locale_table("pt_BR", Ok(vec![
        ("a".to_string(), "1".to_string()),
        ("b".to_string(), "2".to_string()),
        ("a".to_string(), "3".to_string()),
    ]))
    .unwrap();
    assert_eq!(code, "pt-br");
    assert_eq!(table.get("a"), Some(&"3".to_string()));
    assert_eq!(table.keys(), vec!["a", "b"]);
    assert_eq!(locale_table("de", Err("eof".into())).err().unwrap(), "locale de is not flat JSON: eof");
}
