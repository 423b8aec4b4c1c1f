use ingest_parser::language::{detect_language, language_for_extension, LangId};

#[test]
fn supported_extensions() {
    let table = [
        ("ts", LangId::TypeScript),
        ("tsx", LangId::Tsx),
        ("js", LangId::JavaScript),
        ("jsx", LangId::JavaScript),
        ("mjs", LangId::JavaScript),
        ("cjs", LangId::JavaScript),
        ("kt", LangId::Kotlin),
        ("kts", LangId::Kotlin),
        ("go", LangId::Go),
        ("rs", LangId::Rust),
        ("vue", LangId::Vue),
        ("html", LangId::Html),
        ("htm", LangId::Html),
        ("css", LangId::Css),
        ("scss", LangId::Css),
    ];
    for (extension, id) in table {
        assert_eq!(language_for_extension(extension), Some(id));
        assert_eq!(detect_language(&format!("src/a.b/main.{}", extension)), Some(id));
        assert_eq!(detect_language(&format!(".{}", extension.to_uppercase())), Some(id));
        assert_eq!(detect_language(extension), None);
    }
}

#[test]
fn unknown_extensions() {
    for path in ["", "a", "a.", "a.py", "a.ts.bak", "dir.ts/file", "a. ts"] {
        assert_eq!(detect_language(path), None);
    }
    assert_eq!(language_for_extension("TS"), None);
}

#[test]
fn a_path_without_a_dot_has_no_language() {
    assert_eq!(detect_language("go"), None);
    assert_eq!(detect_language("src/Go"), None);
    assert_eq!(detect_language("src/.go"), Some(LangId::Go));
}

#[test]
fn only_the_last_extension_decides() {
    assert_eq!(detect_language("a.css.js"), Some(LangId::JavaScript));
    assert_eq!(detect_language("a.js.CsS"), Some(LangId::Css));
}

#[test]
fn letters_outside_ascii_have_lower_case_too() {
    // The lower case of the Kelvin sign is an ASCII letter.
    assert_eq!(detect_language("main.\u{212A}T"), Some(LangId::Kotlin));
    assert_eq!(detect_language("main.ÉTS"), None);
}

#[test]
fn labels_are_the_names_of_the_variants() {
    for id in [
        LangId::TypeScript,
        LangId::Tsx,
        LangId::JavaScript,
        LangId::Go,
        LangId::Kotlin,
        LangId::Rust,
        LangId::Vue,
        LangId::Html,
        LangId::Css,
    ] {
        assert_eq!(id.label(), format!("{:?}", id));
    }
}
