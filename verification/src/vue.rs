//! Script blocks of Vue single-file components.
use vstd::prelude::*;
use vstd::slice::slice_subrange;

use crate::language::LangId;
use crate::text;
use crate::text::{
    chars_of, has_text, position, position_from, text_of, text_trim, to_ascii_lowercase,
};

verus! {

/// The language that the attributes of a script tag ask for.
pub open spec fn attribute_language(attributes: Seq<char>) -> LangId {
    if text::contains(attributes, "lang=\"tsx\""@) || text::contains(
        attributes,
        "lang='tsx'"@,
    ) {
        LangId::Tsx
    } else if text::contains(attributes, "lang=\"ts\""@) || text::contains(
        attributes,
        "lang='ts'"@,
    ) {
        LangId::TypeScript
    } else {
        LangId::JavaScript
    }
}

/// The first script block of the component `source` with the language of its
/// tag: what stands between the end of the first opening tag and the next
/// closing tag. Tags are found in any case. A block that is blank, or that is
/// never closed, is none.
pub open spec fn script_block(source: Seq<char>) -> Option<(Seq<char>, LangId)> {
    let lower = text::ascii_lowercase(source);
    match text::find(lower, "<script"@) {
        Some(open) => match text::find_from(lower, seq!['>'], open) {
            Some(end) => match text::find_from(lower, "</script>"@, end + 1) {
                Some(close) => {
                    let content = source.subrange(end + 1, close);
                    if text::trim(content).len() == 0 {
                        None
                    } else {
                        Some((content, attribute_language(lower.subrange(open, end))))
                    }
                },
                None => None,
            },
            None => None,
        },
        None => None,
    }
}

/// The language that the lower case attributes of a script tag ask for.
pub fn script_language(attributes: &[char]) -> (id: LangId)
    ensures
        id == attribute_language(attributes@),
{
    if has_text(attributes, chars_of("lang=\"tsx\"").as_slice()) || has_text(
        attributes,
        chars_of("lang='tsx'").as_slice(),
    ) {
        LangId::Tsx
    } else if has_text(attributes, chars_of("lang=\"ts\"").as_slice()) || has_text(
        attributes,
        chars_of("lang='ts'").as_slice(),
    ) {
        LangId::TypeScript
    } else {
        LangId::JavaScript
    }
}

/// Extracts the first `<script>` block from a Vue single-file component.
/// Returns the content of the block and the language to parse it with.
/// Line numbers of what is found in it count from the start of the block.
pub fn extract_vue_script(source: &str) -> (block: Option<(String, LangId)>)
    ensures
        match block {
            Some((content, id)) => script_block(source@) == Some((content@, id)),
            None => script_block(source@) is None,
        },
{
    let chars = chars_of(source);
    let lower = to_ascii_lowercase(chars.as_slice());
    let bracket: [char; 1] = ['>'];
    assert(bracket@ =~= seq!['>']);
    let open = match position(lower.as_slice(), chars_of("<script").as_slice()) {
        Some(at) => at,
        None => return None,
    };
    proof {
        text::lemma_find(lower@, "<script"@, 0);
        text::lemma_find(lower@, seq!['>'], open as int);
    }
    let end = match position_from(lower.as_slice(), &bracket, open) {
        Some(at) => at,
        None => return None,
    };
    proof {
        text::lemma_find(lower@, "</script>"@, end + 1);
    }
    let close = match position_from(
        lower.as_slice(),
        chars_of("</script>").as_slice(),
        end + 1,
    ) {
        Some(at) => at,
        None => return None,
    };
    let content = slice_subrange(chars.as_slice(), end + 1, close);
    if text_trim(content).len() == 0 {
        return None;
    }
    let id = script_language(slice_subrange(lower.as_slice(), open, end));
    Some((text_of(content), id))
}

/// The first script of a component is found as it was written, whatever stands
/// around it and in whatever case its tags are, and its language is that of
/// its opening tag.
pub proof fn law_script_is_found(
    head: Seq<char>,
    open: Seq<char>,
    attributes: Seq<char>,
    content: Seq<char>,
    close: Seq<char>,
    tail: Seq<char>,
)
    requires
        !text::contains(text::ascii_lowercase(head), "<script"@),
        text::ascii_lowercase(open) == "<script"@,
        !attributes.contains('>'),
        !text::contains(text::ascii_lowercase(content), "</script>"@),
        text::ascii_lowercase(close) == "</script>"@,
        text::trim(content).len() > 0,
    ensures
        script_block(head + open + attributes + seq!['>'] + content + close + tail) == Some(
            (content, attribute_language(text::ascii_lowercase(open + attributes))),
        ),
{
    reveal_strlit("<script");
    reveal_strlit("</script>");
    let source = head + open + attributes + seq!['>'] + content + close + tail;
    let lower = text::ascii_lowercase(source);
    let tag = text::ascii_lowercase(open + attributes);
    let lower_head = text::ascii_lowercase(head);
    let lower_content = text::ascii_lowercase(content);
    let opened = lower_head + tag + seq!['>'];
    let closed = "</script>"@ + text::ascii_lowercase(tail);

    assert(tag =~= "<script"@ + text::ascii_lowercase(attributes));
    assert(opened + lower_content + closed =~= lower);
    let rest = tag + seq!['>'] + lower_content + closed;
    assert(Seq::<char>::empty() + lower_head + rest =~= lower);
    assert(rest.subrange(0, 7) =~= "<script"@);
    text::lemma_find_after(Seq::empty(), lower_head, rest, "<script"@);

    let after = seq!['>'] + lower_content + closed;
    assert(lower_head + tag + after =~= lower);
    assert(after.subrange(0, 1) =~= seq!['>']);
    text::lemma_find(tag, seq!['>'], 0);
    assert forall|i: int| 0 <= i < tag.len() implies tag[i] != '>' by {
        if i >= 7 {
            assert(attributes.contains(attributes[i - 7]));
        }
    }
    if let Some(at) = text::find(tag, seq!['>']) {
        assert(tag.subrange(at, at + 1)[0] == tag[at]);
    }
    text::lemma_find_after(lower_head, tag, after, seq!['>']);

    assert(closed.subrange(0, 9) =~= "</script>"@);
    text::lemma_find_after(opened, lower_content, closed, "</script>"@);

    let start = head.len() as int;
    let end = start + tag.len();
    assert(lower.subrange(start, end) =~= tag);
    assert(source.subrange(end + 1, end + 1 + content.len()) =~= content);
}

/// A script is a part of the component: it starts after the end of a tag, ends
/// where a closing tag stands and holds none, and is not blank. It is in TSX,
/// TypeScript or JavaScript.
pub proof fn law_script_is_part_of_source(source: Seq<char>)
    ensures
        script_block(source) matches Some((content, id)) ==> {
            &&& exists|start: int, end: int|
                {
                    &&& 0 < start <= end <= source.len()
                    &&& content == #[trigger] source.subrange(start, end)
                    &&& source[start - 1] == '>'
                    &&& text::occurs_at(text::ascii_lowercase(source), "</script>"@, end)
                }
            &&& !text::contains(text::ascii_lowercase(content), "</script>"@)
            &&& text::trim(content).len() > 0
            &&& id == LangId::Tsx || id == LangId::TypeScript || id == LangId::JavaScript
        },
{
    if let Some((content, id)) = script_block(source) {
        let lower = text::ascii_lowercase(source);
        let open = text::find(lower, "<script"@)->0;
        let end = text::find_from(lower, seq!['>'], open)->0;
        let close = text::find_from(lower, "</script>"@, end + 1)->0;
        text::lemma_find(lower, "<script"@, 0);
        text::lemma_find(lower, seq!['>'], open);
        text::lemma_find(lower, "</script>"@, end + 1);
        assert(lower.subrange(end, end + 1)[0] == lower[end]);
        assert(content == source.subrange(end + 1, close));
        let lower_content = text::ascii_lowercase(content);
        text::lemma_find(lower_content, "</script>"@, 0);
        if let Some(at) = text::find(lower_content, "</script>"@) {
            let length = "</script>"@.len();
            assert(lower_content.subrange(at, at + length) =~= lower.subrange(
                end + 1 + at,
                end + 1 + at + length,
            ));
            reveal_strlit("</script>");
            assert(text::occurs_at(lower, "</script>"@, end + 1 + at));
        }
    }
}

/// A text that holds a pattern between two others contains it.
proof fn lemma_contains_between(before: Seq<char>, pattern: Seq<char>, after: Seq<char>)
    ensures
        text::contains(before + pattern + after, pattern),
{
    let whole = before + pattern + after;
    let at = before.len() as int;
    assert(whole.subrange(at, at + pattern.len()) =~= pattern);
    assert(text::occurs_at(whole, pattern, at));
    text::lemma_find(whole, pattern, 0);
}

/// A tag asks for TSX wherever `lang` is `tsx` among its attributes, in quotes of
/// either sort.
pub proof fn law_tsx_is_asked_for(before: Seq<char>, after: Seq<char>)
    ensures
        attribute_language(before + "lang=\"tsx\""@ + after) == LangId::Tsx,
        attribute_language(before + "lang='tsx'"@ + after) == LangId::Tsx,
{
    lemma_contains_between(before, "lang=\"tsx\""@, after);
    lemma_contains_between(before, "lang='tsx'"@, after);
}

/// Whether the pattern stands in the text, character by character.
pub open spec fn holds(s: Seq<char>, pattern: Seq<char>) -> bool {
    exists|i: int|
        0 <= i && i + pattern.len() <= s.len() && #[trigger] s.skip(i).take(pattern.len() as int)
            == pattern
}

proof fn lemma_holds(s: Seq<char>, pattern: Seq<char>)
    ensures
        holds(s, pattern) == text::contains(s, pattern),
{
    text::lemma_find(s, pattern, 0);
    if holds(s, pattern) {
        let i = choose|i: int|
            0 <= i && i + pattern.len() <= s.len() && #[trigger] s.skip(i).take(
                pattern.len() as int,
            ) == pattern;
        assert(s.subrange(i, i + pattern.len()) =~= s.skip(i).take(pattern.len() as int));
        assert(text::occurs_at(s, pattern, i));
    }
    if let Some(at) = text::find(s, pattern) {
        assert(s.skip(at).take(pattern.len() as int) =~= s.subrange(at, at + pattern.len()));
    }
}

/// A tag asks for TypeScript wherever `lang` is `ts` among its attributes, in
/// quotes of either sort, unless it asks for TSX.
pub proof fn law_typescript_is_asked_for(before: Seq<char>, after: Seq<char>)
    ensures
        ({
            let double = before + "lang=\"ts\""@ + after;
            let single = before + "lang='ts'"@ + after;
            &&& !holds(double, "lang=\"tsx\""@) && !holds(double, "lang='tsx'"@)
                ==> attribute_language(double) == LangId::TypeScript
            &&& !holds(single, "lang=\"tsx\""@) && !holds(single, "lang='tsx'"@)
                ==> attribute_language(single) == LangId::TypeScript
        }),
{
    let double = before + "lang=\"ts\""@ + after;
    let single = before + "lang='ts'"@ + after;
    lemma_contains_between(before, "lang=\"ts\""@, after);
    lemma_contains_between(before, "lang='ts'"@, after);
    lemma_holds(double, "lang=\"tsx\""@);
    lemma_holds(double, "lang='tsx'"@);
    lemma_holds(single, "lang=\"tsx\""@);
    lemma_holds(single, "lang='tsx'"@);
}

/// A tag asks for TSX or TypeScript only where it says so; else its script is
/// JavaScript.
pub proof fn law_language_is_written_in_the_tag(attributes: Seq<char>)
    ensures
        attribute_language(attributes) == LangId::Tsx <==> holds(attributes, "lang=\"tsx\""@)
            || holds(attributes, "lang='tsx'"@),
        attribute_language(attributes) == LangId::TypeScript ==> holds(
            attributes,
            "lang=\"ts\""@,
        ) || holds(attributes, "lang='ts'"@),
        !holds(attributes, "lang=\"tsx\""@) && !holds(attributes, "lang='tsx'"@) && !holds(
            attributes,
            "lang=\"ts\""@,
        ) && !holds(attributes, "lang='ts'"@) ==> attribute_language(attributes)
            == LangId::JavaScript,
{
    lemma_holds(attributes, "lang=\"tsx\""@);
    lemma_holds(attributes, "lang='tsx'"@);
    lemma_holds(attributes, "lang=\"ts\""@);
    lemma_holds(attributes, "lang='ts'"@);
}

/// A component without an opening tag, without the end of that tag, without a
/// closing tag behind it, or with nothing but white space in between, has no
/// script.
pub proof fn law_no_script_without_its_parts(
    head: Seq<char>,
    open: Seq<char>,
    attributes: Seq<char>,
    content: Seq<char>,
    close: Seq<char>,
    tail: Seq<char>,
)
    requires
        !holds(text::ascii_lowercase(head), "<script"@),
        text::ascii_lowercase(open) == "<script"@,
        !attributes.contains('>'),
        !holds(text::ascii_lowercase(content), "</script>"@),
        text::ascii_lowercase(close) == "</script>"@,
    ensures
        script_block(head) is None,
        script_block(head + open + attributes) is None,
        script_block(head + open + attributes + seq!['>'] + content) is None,
        (forall|i: int| 0 <= i < content.len() ==> text::white_space(#[trigger] content[i]))
            ==> script_block(head + open + attributes + seq!['>'] + content + close + tail) is None,
{
    reveal_strlit("<script");
    reveal_strlit("</script>");
    let lower_head = text::ascii_lowercase(head);
    let lower_content = text::ascii_lowercase(content);
    let tag = text::ascii_lowercase(open + attributes);
    let opened = lower_head + tag + seq!['>'];
    lemma_holds(lower_head, "<script"@);
    lemma_holds(lower_content, "</script>"@);
    assert(tag =~= "<script"@ + text::ascii_lowercase(attributes));
    assert(tag.subrange(0, 7) =~= "<script"@);
    assert forall|i: int| 0 <= i < tag.len() implies tag[i] != '>' by {
        if i >= 7 {
            assert(attributes.contains(attributes[i - 7]));
        }
    }

    let unended = text::ascii_lowercase(head + open + attributes);
    assert(unended =~= Seq::<char>::empty() + lower_head + tag);
    text::lemma_find_after(Seq::empty(), lower_head, tag, "<script"@);
    let start = head.len() as int;
    text::lemma_find(unended, seq!['>'], start);
    if let Some(at) = text::find_from(unended, seq!['>'], start) {
        assert(unended.subrange(at, at + 1)[0] == unended[at]);
        assert(unended[at] == tag[at - start]);
    }

    lemma_tag_is_found(head, open, attributes, content);
    let unclosed = text::ascii_lowercase(head + open + attributes + seq!['>'] + content);
    assert(unclosed =~= opened + lower_content);
    let from = opened.len() as int;
    text::lemma_find(unclosed, "</script>"@, from);
    text::lemma_find(lower_content, "</script>"@, 0);
    if let Some(at) = text::find_from(unclosed, "</script>"@, from) {
        assert(unclosed.subrange(at, at + 9) =~= lower_content.subrange(at - from, at - from + 9));
        assert(text::occurs_at(lower_content, "</script>"@, at - from));
    }

    if forall|i: int| 0 <= i < content.len() ==> text::white_space(#[trigger] content[i]) {
        let rest = content + close + tail;
        lemma_tag_is_found(head, open, attributes, rest);
        let source = head + open + attributes + seq!['>'] + content + close + tail;
        assert(source =~= head + open + attributes + seq!['>'] + rest);
        let lower = text::ascii_lowercase(source);
        let closed = "</script>"@ + text::ascii_lowercase(tail);
        assert(lower =~= opened + lower_content + closed);
        assert(closed.subrange(0, 9) =~= "</script>"@);
        text::lemma_find_after(opened, lower_content, closed, "</script>"@);
        assert(source.subrange(from, from + content.len()) =~= content);
        text::law_blank_text_has_no_word(content);
    }
}

/// The tag of a script is found, whatever follows it.
proof fn lemma_tag_is_found(
    head: Seq<char>,
    open: Seq<char>,
    attributes: Seq<char>,
    rest: Seq<char>,
)
    requires
        !text::contains(text::ascii_lowercase(head), "<script"@),
        text::ascii_lowercase(open) == "<script"@,
        !attributes.contains('>'),
    ensures
        ({
            let lower = text::ascii_lowercase(head + open + attributes + seq!['>'] + rest);
            let end = (head.len() + open.len() + attributes.len()) as int;
            &&& text::find(lower, "<script"@) == Some(head.len() as int)
            &&& text::find_from(lower, seq!['>'], head.len() as int) == Some(end)
        }),
{
    reveal_strlit("<script");
    let lower_head = text::ascii_lowercase(head);
    let tag = text::ascii_lowercase(open + attributes);
    let lower = text::ascii_lowercase(head + open + attributes + seq!['>'] + rest);
    let after = seq!['>'] + text::ascii_lowercase(rest);
    assert(text::ascii_lowercase(open).len() == open.len());
    assert(tag =~= "<script"@ + text::ascii_lowercase(attributes));
    assert(lower =~= lower_head + tag + after);
    assert(Seq::<char>::empty() + lower_head + (tag + after) =~= lower);
    assert((tag + after).subrange(0, 7) =~= "<script"@);
    text::lemma_find_after(Seq::empty(), lower_head, tag + after, "<script"@);
    assert(after.subrange(0, 1) =~= seq!['>']);
    assert forall|i: int| 0 <= i < tag.len() implies tag[i] != '>' by {
        if i >= 7 {
            assert(attributes.contains(attributes[i - 7]));
        }
    }
    text::lemma_contains_mark(tag, '>');
    text::lemma_find_after(lower_head, tag, after, seq!['>']);
}

} // verus!
