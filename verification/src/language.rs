//! The languages that are told apart, and their detection by file extension.
use vstd::prelude::*;

use crate::text;
use crate::text::{chars_of, has_text, same_text, text_after_last, text_of};

verus! {

/// A source language that the engine knows.
#[derive(Debug, Clone, Copy, PartialEq, Eq, Hash, Structural)]
pub enum LangId {
    TypeScript,
    Tsx,
    JavaScript,
    Go,
    Kotlin,
    Rust,
    Vue,
    Html,
    Css,
}

impl LangId {
    /// The name of the variant.
    pub open spec fn label_text(self) -> Seq<char> {
        match self {
            LangId::TypeScript => "TypeScript"@,
            LangId::Tsx => "Tsx"@,
            LangId::JavaScript => "JavaScript"@,
            LangId::Go => "Go"@,
            LangId::Kotlin => "Kotlin"@,
            LangId::Rust => "Rust"@,
            LangId::Vue => "Vue"@,
            LangId::Html => "Html"@,
            LangId::Css => "Css"@,
        }
    }

    /// The name of the variant, as it stands in messages.
    pub fn label(self) -> (name: &'static str)
        ensures
            name@ == self.label_text(),
    {
        match self {
            LangId::TypeScript => "TypeScript",
            LangId::Tsx => "Tsx",
            LangId::JavaScript => "JavaScript",
            LangId::Go => "Go",
            LangId::Kotlin => "Kotlin",
            LangId::Rust => "Rust",
            LangId::Vue => "Vue",
            LangId::Html => "Html",
            LangId::Css => "Css",
        }
    }
}

/// The lower case form of a text that holds characters outside ASCII, as
/// `str::to_lowercase` gives it.
pub uninterp spec fn unicode_lowercase(s: Seq<char>) -> Seq<char>;

/// `str::to_lowercase`: of an ASCII text, each letter in lower case; of any
/// other text, the result has the name `unicode_lowercase`.
pub assume_specification[ str::to_lowercase ](s: &str) -> (lower: String)
    ensures
        vstd::utf8::is_ascii_chars(s@) ==> lower@ == text::ascii_lowercase(s@),
        !vstd::utf8::is_ascii_chars(s@) ==> lower@ == unicode_lowercase(s@),
;

/// `s` in lower case.
pub open spec fn lowercase(s: Seq<char>) -> Seq<char> {
    if vstd::utf8::is_ascii_chars(s) {
        text::ascii_lowercase(s)
    } else {
        unicode_lowercase(s)
    }
}

/// The language of files with the lower case extension `extension`.
pub open spec fn extension_language(extension: Seq<char>) -> Option<LangId> {
    if extension == "ts"@ {
        Some(LangId::TypeScript)
    } else if extension == "tsx"@ {
        Some(LangId::Tsx)
    } else if extension == "js"@ || extension == "jsx"@ || extension == "mjs"@ || extension
        == "cjs"@ {
        Some(LangId::JavaScript)
    } else if extension == "go"@ {
        Some(LangId::Go)
    } else if extension == "kt"@ || extension == "kts"@ {
        Some(LangId::Kotlin)
    } else if extension == "rs"@ {
        Some(LangId::Rust)
    } else if extension == "vue"@ {
        Some(LangId::Vue)
    } else if extension == "html"@ || extension == "htm"@ {
        Some(LangId::Html)
    } else if extension == "css"@ || extension == "scss"@ {
        Some(LangId::Css)
    } else {
        None
    }
}

/// The language of the file at `path`: that of the text after its last dot, in
/// any case. A path without a dot has no extension, and no language.
pub open spec fn path_language(path: Seq<char>) -> Option<LangId> {
    if path.contains('.') {
        extension_language(lowercase(text::after_last(path, '.')))
    } else {
        None
    }
}

/// The language of files with the lower case extension `extension`.
pub fn language_for_extension(extension: &str) -> (id: Option<LangId>)
    ensures
        id == extension_language(extension@),
{
    if same_text(extension, "ts") {
        Some(LangId::TypeScript)
    } else if same_text(extension, "tsx") {
        Some(LangId::Tsx)
    } else if same_text(extension, "js") || same_text(extension, "jsx") || same_text(
        extension,
        "mjs",
    ) || same_text(extension, "cjs") {
        Some(LangId::JavaScript)
    } else if same_text(extension, "go") {
        Some(LangId::Go)
    } else if same_text(extension, "kt") || same_text(extension, "kts") {
        Some(LangId::Kotlin)
    } else if same_text(extension, "rs") {
        Some(LangId::Rust)
    } else if same_text(extension, "vue") {
        Some(LangId::Vue)
    } else if same_text(extension, "html") || same_text(extension, "htm") {
        Some(LangId::Html)
    } else if same_text(extension, "css") || same_text(extension, "scss") {
        Some(LangId::Css)
    } else {
        None
    }
}

/// The language of the file at `path`, by its extension.
pub fn detect_language(path: &str) -> (id: Option<LangId>)
    ensures
        id == path_language(path@),
{
    let chars = chars_of(path);
    let dot: [char; 1] = ['.'];
    assert(dot@ =~= seq!['.']);
    proof {
        text::lemma_contains_mark(path@, '.');
    }
    if !has_text(chars.as_slice(), &dot) {
        return None;
    }
    let extension = text_of(text_after_last(chars.as_slice(), '.'));
    language_for_extension(extension.to_lowercase().as_str())
}

/// Only what follows the last dot of a path decides its language, and the case
/// of its ASCII letters does not matter.
pub proof fn law_extension_decides(stem: Seq<char>, extension: Seq<char>)
    requires
        !extension.contains('.'),
        vstd::utf8::is_ascii_chars(extension),
    ensures
        path_language(stem + seq!['.'] + extension) == extension_language(
            text::ascii_lowercase(extension),
        ),
{
    text::lemma_after_last(stem, extension, '.');
    assert((stem + seq!['.'] + extension)[stem.len() as int] == '.');
}

/// A path without a dot has no language.
pub proof fn law_no_extension_no_language(path: Seq<char>)
    requires
        !path.contains('.'),
    ensures
        path_language(path) is None,
{
}

/// The extensions of the languages, each of them in any case of its letters. No
/// other ASCII extension has a language.
pub proof fn law_extensions_of_languages(stem: Seq<char>, extension: Seq<char>)
    requires
        !extension.contains('.'),
        vstd::utf8::is_ascii_chars(extension),
    ensures
        ({
            let id = path_language(stem + seq!['.'] + extension);
            let lower = text::ascii_lowercase(extension);
            &&& id == Some(LangId::TypeScript) <==> lower == "ts"@
            &&& id == Some(LangId::Tsx) <==> lower == "tsx"@
            &&& id == Some(LangId::JavaScript) <==> seq!["js"@, "jsx"@, "mjs"@, "cjs"@].contains(
                lower,
            )
            &&& id == Some(LangId::Go) <==> lower == "go"@
            &&& id == Some(LangId::Kotlin) <==> seq!["kt"@, "kts"@].contains(lower)
            &&& id == Some(LangId::Rust) <==> lower == "rs"@
            &&& id == Some(LangId::Vue) <==> lower == "vue"@
            &&& id == Some(LangId::Html) <==> seq!["html"@, "htm"@].contains(lower)
            &&& id == Some(LangId::Css) <==> seq!["css"@, "scss"@].contains(lower)
        }),
{
    law_extension_decides(stem, extension);
    reveal_strlit("ts");
    reveal_strlit("tsx");
    reveal_strlit("js");
    reveal_strlit("jsx");
    reveal_strlit("mjs");
    reveal_strlit("cjs");
    reveal_strlit("go");
    reveal_strlit("kt");
    reveal_strlit("kts");
    reveal_strlit("rs");
    reveal_strlit("vue");
    reveal_strlit("html");
    reveal_strlit("htm");
    reveal_strlit("css");
    reveal_strlit("scss");
    lemma_pair("kt"@, "kts"@, text::ascii_lowercase(extension));
    lemma_pair("html"@, "htm"@, text::ascii_lowercase(extension));
    lemma_pair("css"@, "scss"@, text::ascii_lowercase(extension));
    let scripts = seq!["js"@, "jsx"@, "mjs"@, "cjs"@];
    assert(scripts[0] == "js"@ && scripts[1] == "jsx"@ && scripts[2] == "mjs"@ && scripts[3]
        == "cjs"@);
    assert("ts"@.len() == 2 && "js"@.len() == 2 && "go"@.len() == 2 && "kt"@.len() == 2
        && "rs"@.len() == 2);
    assert("tsx"@.len() == 3 && "jsx"@.len() == 3 && "mjs"@.len() == 3 && "cjs"@.len() == 3
        && "css"@.len() == 3 && "kts"@.len() == 3 && "vue"@.len() == 3 && "htm"@.len() == 3);
    assert("html"@.len() == 4 && "scss"@.len() == 4);
    // The extensions differ in their lengths or in their first two characters.
    let lower = text::ascii_lowercase(extension);
    assert(lower == "ts"@ ==> lower[0] == 't');
    assert(lower == "js"@ ==> lower[0] == 'j');
    assert(lower == "go"@ ==> lower[0] == 'g');
    assert(lower == "kt"@ ==> lower[0] == 'k');
    assert(lower == "rs"@ ==> lower[0] == 'r');
    assert(lower == "tsx"@ ==> lower[0] == 't');
    assert(lower == "jsx"@ ==> lower[0] == 'j');
    assert(lower == "mjs"@ ==> lower[0] == 'm');
    assert(lower == "cjs"@ ==> lower[0] == 'c' && lower[1] == 'j');
    assert(lower == "css"@ ==> lower[0] == 'c' && lower[1] == 's');
    assert(lower == "kts"@ ==> lower[0] == 'k');
    assert(lower == "vue"@ ==> lower[0] == 'v');
    assert(lower == "htm"@ ==> lower[0] == 'h');
    assert(lower == "html"@ ==> lower[0] == 'h');
    assert(lower == "scss"@ ==> lower[0] == 's');
}

proof fn lemma_pair(a: Seq<char>, b: Seq<char>, c: Seq<char>)
    ensures
        seq![a, b].contains(c) <==> c == a || c == b,
{
    assert(seq![a, b][0] == a && seq![a, b][1] == b);
}

/// Two paths whose extensions differ in the case of ASCII letters alone are of
/// the same language.
pub proof fn law_case_does_not_matter(
    stem: Seq<char>,
    other: Seq<char>,
    extension: Seq<char>,
    written: Seq<char>,
)
    requires
        !extension.contains('.'),
        !written.contains('.'),
        vstd::utf8::is_ascii_chars(extension),
        vstd::utf8::is_ascii_chars(written),
        text::ascii_lowercase(extension) == text::ascii_lowercase(written),
    ensures
        path_language(stem + seq!['.'] + extension) == path_language(
            other + seq!['.'] + written,
        ),
{
    law_extension_decides(stem, extension);
    law_extension_decides(other, written);
}

/// An extension with characters outside ASCII counts by its lower case too.
pub proof fn law_other_extensions_count_in_lower_case(stem: Seq<char>, extension: Seq<char>)
    requires
        !extension.contains('.'),
        !vstd::utf8::is_ascii_chars(extension),
    ensures
        path_language(stem + seq!['.'] + extension) == extension_language(
            unicode_lowercase(extension),
        ),
{
    text::lemma_after_last(stem, extension, '.');
    assert((stem + seq!['.'] + extension)[stem.len() as int] == '.');
}

/// The names by which messages speak of the languages.
pub proof fn law_labels_of_languages(id: LangId)
    ensures
        id == LangId::TypeScript ==> id.label_text() == "TypeScript"@,
        id == LangId::Tsx ==> id.label_text() == "Tsx"@,
        id == LangId::JavaScript ==> id.label_text() == "JavaScript"@,
        id == LangId::Go ==> id.label_text() == "Go"@,
        id == LangId::Kotlin ==> id.label_text() == "Kotlin"@,
        id == LangId::Rust ==> id.label_text() == "Rust"@,
        id == LangId::Vue ==> id.label_text() == "Vue"@,
        id == LangId::Html ==> id.label_text() == "Html"@,
        id == LangId::Css ==> id.label_text() == "Css"@,
{
}

} // verus!
