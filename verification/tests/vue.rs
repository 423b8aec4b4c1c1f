use ingest_parser::language::LangId;
use ingest_parser::text::chars_of;
use ingest_parser::vue::{extract_vue_script, script_language};

fn script(source: &str) -> Option<(String, LangId)> {
    extract_vue_script(source)
}

#[test]
fn script_between_its_tags() {
    let source = "<template>x</template>\n<script>\nlet a = 1;\n</script>\n<style/>";
    assert_eq!(script(source), Some(("\nlet a = 1;\n".to_string(), LangId::JavaScript)));
}

#[test]
fn language_of_the_tag() {
    for (tag, id) in [
        ("<script lang=\"ts\">", LangId::TypeScript),
        ("<script setup lang='ts'>", LangId::TypeScript),
        ("<SCRIPT LANG=\"TSX\">", LangId::Tsx),
        ("<script lang='tsx' setup>", LangId::Tsx),
        ("<script lang=ts>", LangId::JavaScript),
        ("<script>", LangId::JavaScript),
    ] {
        assert_eq!(script(&format!("{}A</script>", tag)), Some(("A".to_string(), id)));
    }
}

#[test]
fn lower_case_attributes_decide() {
    assert_eq!(script_language(&chars_of(" lang='ts' lang='tsx'")), LangId::Tsx);
    assert_eq!(script_language(&chars_of(" LANG='ts'")), LangId::JavaScript);
}

#[test]
fn components_without_a_script() {
    for source in [
        "",
        "<template/>",
        "<script",
        "<script lang='ts'",
        "<script>let a;",
        "<script></script>",
        "<script> \n\t</script>",
        "<script src='a.js'/>",
    ] {
        assert_eq!(script(source), None);
    }
}

#[test]
fn the_first_script_counts() {
    let source = "<script>one</script><script lang='ts'>two</script>";
    assert_eq!(script(source), Some(("one".to_string(), LangId::JavaScript)));
    // A blank first script hides the next one.
    assert_eq!(script("<script> </script><script>two</script>"), None);
}

#[test]
fn content_keeps_its_case() {
    assert_eq!(
        script("<Script>const A = 'B';</SCRIPT>"),
        Some(("const A = 'B';".to_string(), LangId::JavaScript))
    );
}

#[test]
fn letters_that_grow_in_lower_case_do_not_shift_the_script() {
    // The lower case of this capital letter takes more bytes than the letter.
    let source = "<template>\u{130}\u{130}</template><script>let é = 1;</script>";
    assert_eq!(script(source), Some(("let é = 1;".to_string(), LangId::JavaScript)));
    let shrinking = "<template>\u{212A}</template><script>x</script>";
    assert_eq!(script(shrinking), Some(("x".to_string(), LangId::JavaScript)));
}

#[test]
fn a_closing_tag_ends_the_script() {
    assert_eq!(
        script("<script>a</scrip></script>b</script>"),
        Some(("a</scrip>".to_string(), LangId::JavaScript))
    );
}
