//! Classes and what they inherit from.
use vstd::prelude::*;

use crate::query::{CaptureView, QueryMatch, Role};
use crate::report::{Class, ClassView};
use crate::text::{
    chars_of, same_text, text_before, text_first_word, text_listed, text_of, text_second,
    text_trim_end, CharSet,
};
use crate::tree::{NodeShape, SyntaxNode, SyntaxTree};
use crate::{query, report, text, tree};

verus! {

/// `s` without what stands in angle brackets, where `depth` of them are open
/// before it. The head of an arrow, `=>`, closes none.
pub open spec fn without_arguments(s: Seq<char>, depth: nat) -> Seq<char>
    decreases s.len(),
{
    if s.len() == 0 {
        s
    } else if starts_with_arrow(s) {
        if depth == 0 {
            s.take(2) + without_arguments(s.skip(2), depth)
        } else {
            without_arguments(s.skip(2), depth)
        }
    } else if s[0] == '<' {
        without_arguments(s.skip(1), depth + 1)
    } else if depth == 0 {
        s.take(1) + without_arguments(s.skip(1), depth)
    } else if s[0] == '>' {
        without_arguments(s.skip(1), (depth - 1) as nat)
    } else {
        without_arguments(s.skip(1), depth)
    }
}

pub open spec fn starts_with_arrow(s: Seq<char>) -> bool {
    s.len() >= 2 && s[0] == '=' && s[1] == '>'
}

/// How many angle brackets are open after `s`, where `depth` are before it.
pub open spec fn depth_after(s: Seq<char>, depth: nat) -> nat
    decreases s.len(),
{
    if s.len() == 0 {
        depth
    } else if starts_with_arrow(s) {
        depth_after(s.skip(2), depth)
    } else if s[0] == '<' {
        depth_after(s.skip(1), depth + 1)
    } else if s[0] == '>' && depth > 0 {
        depth_after(s.skip(1), (depth - 1) as nat)
    } else {
        depth_after(s.skip(1), depth)
    }
}

/// The heading in the text of a class whose body is not known: what comes before
/// the first brace, without type arguments.
pub open spec fn heading_of(whole: Seq<char>) -> Seq<char> {
    text::before(without_arguments(whole, 0), seq!['{'])
}

/// The parent class in the heading of a class: the word that follows `extends`,
/// without what may trail the name of a type.
pub open spec fn parent_in(heading: Seq<char>) -> Option<Seq<char>> {
    match text::second_piece(heading, "extends"@) {
        Some(rest) => {
            let name = text::trim_end(text::first_word(rest), CharSet::TypeTail);
            if name.len() == 0 {
                None
            } else {
                Some(name)
            }
        },
        None => None,
    }
}

/// The interfaces in the heading of a class: the list that follows `implements`.
pub open spec fn interfaces_in(heading: Seq<char>) -> Seq<Seq<char>> {
    match text::second_piece(heading, "implements"@) {
        Some(rest) => text::listed(rest).map_values(
            |entry: Seq<char>| text::trim_end(entry, CharSet::TypeTail),
        ),
        None => Seq::empty(),
    }
}

/// The kinds of nodes that are the body of a class.
pub open spec fn body_kind(kind: Seq<char>) -> bool {
    kind == "class_body"@ || kind == "enum_class_body"@
}

/// The first child of the node at `class`, from the node at `from` on, that is
/// a body.
pub open spec fn body_child(nodes: Seq<NodeShape>, class: int, from: int) -> Option<int>
    decreases nodes.len() - from,
{
    if from >= nodes.len() || nodes[from].depth <= nodes[class].depth {
        None
    } else if nodes[from].depth == nodes[class].depth + 1 && body_kind(nodes[from].kind) {
        Some(from)
    } else {
        body_child(nodes, class, from + 1)
    }
}

/// The byte from which the heritage of the class at `class` is read: the end of
/// its name, and of the type parameters that follow the name.
pub open spec fn heritage_start(nodes: Seq<NodeShape>, class: int, name: Option<int>) -> nat {
    match name {
        Some(n) => {
            let end = match tree::next_sibling_of(nodes, n) {
                Some(next) => if nodes[next].kind == "type_parameters"@ {
                    nodes[next].end_byte
                } else {
                    nodes[n].end_byte
                },
                None => nodes[n].end_byte,
            };
            if nodes[class].start_byte <= end <= nodes[class].end_byte {
                end
            } else {
                nodes[class].start_byte
            }
        },
        None => nodes[class].start_byte,
    }
}

/// The heading that the heritage of the class at `class` is read from, without
/// type arguments. It ends where the body of the class starts; where the class
/// has no body, at the first brace.
pub open spec fn heritage_heading(
    nodes: Seq<NodeShape>,
    class: int,
    name: Option<int>,
    source: Seq<u8>,
) -> Option<Seq<char>> {
    let start_byte = heritage_start(nodes, class, name);
    match body_child(nodes, class, class + 1) {
        Some(body) => match tree::node_text(
            NodeShape { start_byte, end_byte: nodes[body].start_byte, ..nodes[class] },
            source,
        ) {
            Some(text) => Some(without_arguments(text, 0)),
            None => None,
        },
        None => match tree::node_text(NodeShape { start_byte, ..nodes[class] }, source) {
            Some(text) => Some(heading_of(text)),
            None => None,
        },
    }
}

/// The parent class and the interfaces that the class captures show, where
/// `name` names the class. A later parent replaces an earlier one; interfaces
/// add up.
pub open spec fn heritage_among(
    nodes: Seq<NodeShape>,
    captures: Seq<CaptureView>,
    name: Option<int>,
    source: Seq<u8>,
) -> (Option<Seq<char>>, Seq<Seq<char>>)
    decreases captures.len(),
{
    if captures.len() == 0 {
        (None, Seq::empty())
    } else {
        let earlier = heritage_among(nodes, captures.drop_last(), name, source);
        let last = captures.last();
        if Role::Class.fits(last.name) {
            match heritage_heading(nodes, last.node, name, source) {
                Some(heading) => (
                    match parent_in(heading) {
                        Some(parent) => Some(parent),
                        None => earlier.0,
                    },
                    earlier.1 + interfaces_in(heading),
                ),
                None => earlier,
            }
        } else {
            earlier
        }
    }
}

/// The parent class and the interfaces that a match shows.
pub open spec fn heritage_of(
    nodes: Seq<NodeShape>,
    captures: Seq<CaptureView>,
    source: Seq<u8>,
) -> (Option<Seq<char>>, Seq<Seq<char>>) {
    heritage_among(nodes, captures, query::last_in_role(captures, Role::Name), source)
}

/// The class that a match names, if it names one.
pub open spec fn class_of(
    nodes: Seq<NodeShape>,
    captures: Seq<CaptureView>,
    source: Seq<u8>,
) -> Option<ClassView> {
    match query::last_in_role(captures, Role::Name) {
        Some(n) => {
            let name = tree::text_or_empty(nodes[n], source);
            if name.len() == 0 {
                None
            } else {
                let (parent_class, interfaces) = heritage_of(nodes, captures, source);
                Some(ClassView { name, parent_class, interfaces })
            }
        },
        None => None,
    }
}

/// The classes that the matches name, in their order.
pub open spec fn classes_of(
    nodes: Seq<NodeShape>,
    matches: Seq<Seq<CaptureView>>,
    source: Seq<u8>,
) -> Seq<ClassView>
    decreases matches.len(),
{
    if matches.len() == 0 {
        Seq::empty()
    } else {
        let earlier = classes_of(nodes, matches.drop_last(), source);
        match class_of(nodes, matches.last(), source) {
            Some(class) => earlier.push(class),
            None => earlier,
        }
    }
}

/// `s` without what stands in angle brackets.
pub fn drop_arguments(s: &[char]) -> (plain: Vec<char>)
    ensures
        plain@ == without_arguments(s@, 0),
{
    let mut plain: Vec<char> = Vec::new();
    let mut depth: usize = 0;
    let mut i: usize = 0;
    assert(s@.skip(0) =~= s@);
    assert(plain@ + without_arguments(s@, 0) =~= without_arguments(s@, 0));
    while i < s.len()
        invariant
            depth <= i <= s@.len(),
            without_arguments(s@, 0) == plain@ + without_arguments(s@.skip(i as int), depth as nat),
        decreases s@.len() - i,
    {
        let ghost rest = s@.skip(i as int);
        let ghost before = plain@;
        let c = s[i];
        if c == '=' && s.len() - i >= 2 && s[i + 1] == '>' {
            assert(rest.skip(2) =~= s@.skip(i + 2));
            if depth == 0 {
                plain.push('=');
                plain.push('>');
                assert(plain@ =~= before + rest.take(2));
            }
            i += 2;
            assert(without_arguments(s@, 0) =~= plain@ + without_arguments(
                s@.skip(i as int),
                depth as nat,
            ));
        } else {
            assert(rest.skip(1) =~= s@.skip(i + 1));
            if c == '<' {
                depth += 1;
            } else if depth == 0 {
                plain.push(c);
                assert(plain@ =~= before + rest.take(1));
            } else if c == '>' {
                depth -= 1;
            }
            i += 1;
            assert(without_arguments(s@, 0) =~= plain@ + without_arguments(
                s@.skip(i as int),
                depth as nat,
            ));
        }
    }
    assert(plain@ =~= without_arguments(s@, 0));
    plain
}

/// The parent class in the heading of a class.
pub fn read_parent(heading: &[char]) -> (parent: Option<String>)
    ensures
        report::optional_text(parent) == parent_in(heading@),
{
    match text_second(heading, chars_of("extends").as_slice()) {
        Some(rest) => {
            let name = text_trim_end(text_first_word(rest), CharSet::TypeTail);
            if name.len() == 0 {
                None
            } else {
                Some(text_of(name))
            }
        },
        None => None,
    }
}

/// The interfaces in the heading of a class.
pub fn read_interfaces(heading: &[char]) -> (interfaces: Vec<String>)
    ensures
        report::texts(interfaces@) == interfaces_in(heading@),
{
    let mut interfaces: Vec<String> = Vec::new();
    let rest = match text_second(heading, chars_of("implements").as_slice()) {
        Some(rest) => rest,
        None => {
            assert(report::texts(interfaces@) =~= interfaces_in(heading@));
            return interfaces;
        },
    };
    let entries = text_listed(rest);
    let ghost list = text::listed(rest@);
    let mut i: usize = 0;
    while i < entries.len()
        invariant
            i <= entries@.len(),
            list == entries@.map_values(|e: &[char]| e@),
            interfaces_in(heading@) == list.map_values(
                |entry: Seq<char>| text::trim_end(entry, CharSet::TypeTail),
            ),
            report::texts(interfaces@) == interfaces_in(heading@).take(i as int),
        decreases entries@.len() - i,
    {
        assert(list[i as int] == entries@[i as int]@);
        let ghost earlier = report::texts(interfaces@);
        let name = text_of(text_trim_end(entries[i], CharSet::TypeTail));
        interfaces.push(name);
        assert(report::texts(interfaces@) =~= earlier.push(name@));
        assert(interfaces_in(heading@)[i as int] == name@);
        i += 1;
        assert(report::texts(interfaces@) =~= interfaces_in(heading@).take(i as int));
    }
    assert(report::texts(interfaces@) =~= interfaces_in(heading@));
    interfaces
}

fn is_body(kind: &str) -> (yes: bool)
    ensures
        yes == body_kind(kind@),
{
    same_text(kind, "class_body") || same_text(kind, "enum_class_body")
}

/// The first child of the node at `class` that is a body.
fn find_body(tree: &SyntaxTree, class: usize) -> (child: Option<usize>)
    requires
        class < tree@.len(),
    ensures
        match child {
            Some(c) => body_child(tree@, class as int, class + 1) == Some(c as int) && c
                < tree@.len(),
            None => body_child(tree@, class as int, class + 1) is None,
        },
{
    let count: usize = tree.len();
    let depth: usize = tree.node(class).depth;
    let mut i: usize = class + 1;
    while i < count && tree.node(i).depth > depth
        invariant
            class < i <= count == tree@.len(),
            depth == tree@[class as int].depth,
            body_child(tree@, class as int, class + 1) == body_child(tree@, class as int, i as int),
        decreases count - i,
    {
        let node = tree.node(i);
        if node.depth - 1 == depth && is_body(node.kind) {
            return Some(i);
        }
        i += 1;
    }
    None
}

/// The heading that the heritage of the class at `class` is read from.
fn read_heading(tree: &SyntaxTree, class: usize, name: Option<usize>, source: &[u8]) -> (heading:
    Option<Vec<char>>)
    requires
        class < tree@.len(),
        name matches Some(n) ==> n < tree@.len(),
    ensures
        ({
            let named = match name {
                Some(n) => Some(n as int),
                None => None,
            };
            match heading {
                Some(h) => heritage_heading(tree@, class as int, named, source@) == Some(h@),
                None => heritage_heading(tree@, class as int, named, source@) is None,
            }
        }),
{
    let node = tree.node(class);
    let mut start: usize = node.start_byte;
    if let Some(n) = name {
        let mut end: usize = tree.node(n).end_byte;
        if let Some(next) = tree.next_sibling(n) {
            if tree.is_kind(next, "type_parameters") {
                end = tree.node(next).end_byte;
            }
        }
        if start <= end && end <= node.end_byte {
            start = end;
        }
    }
    let body = find_body(tree, class);
    let span = SyntaxNode {
        kind: node.kind,
        named: node.named,
        start_byte: start,
        end_byte: match body {
            Some(b) => tree.node(b).start_byte,
            None => node.end_byte,
        },
        start_row: node.start_row,
        end_row: node.end_row,
        depth: node.depth,
    };
    match span.text(source) {
        Some(text) => {
            let mut plain = drop_arguments(chars_of(text).as_slice());
            if body.is_none() {
                let brace: [char; 1] = ['{'];
                assert(brace@ =~= seq!['{']);
                let length: usize = text_before(plain.as_slice(), &brace).len();
                proof {
                    text::lemma_find(plain@, seq!['{'], 0);
                    assert(plain@.take(length as int) =~= heading_of(text@));
                }
                plain.truncate(length);
            }
            Some(plain)
        },
        None => None,
    }
}

/// Extracts class heritage information from the captures of a match: the
/// parent class and the interfaces.
pub fn extract_class_info(tree: &SyntaxTree, found: &QueryMatch, source: &[u8]) -> (heritage: (
    Option<String>,
    Vec<String>,
))
    requires
        query::captures_within(found@, tree@.len()),
    ensures
        (report::optional_text(heritage.0), report::texts(heritage.1@)) == heritage_of(
            tree@,
            found@,
            source@,
        ),
{
    let name = found.last_node(Role::Name);
    let ghost named = query::last_in_role(found@, Role::Name);
    let mut parent: Option<String> = None;
    let mut interfaces: Vec<String> = Vec::new();
    let mut i: usize = 0;
    assert(report::texts(interfaces@) =~= Seq::empty());
    while i < found.captures.len()
        invariant
            i <= found.captures@.len() == found@.len(),
            query::captures_within(found@, tree@.len()),
            match name {
                Some(n) => named == Some(n as int) && n < tree@.len(),
                None => named is None,
            },
            (report::optional_text(parent), report::texts(interfaces@)) == heritage_among(
                tree@,
                found@.take(i as int),
                named,
                source@,
            ),
        decreases found@.len() - i,
    {
        let capture = &found.captures[i];
        assert(found@[i as int] == capture@);
        assert(found@.take(i + 1).drop_last() =~= found@.take(i as int));
        if Role::Class.is_fit(capture.name.as_str()) {
            if let Some(heading) = read_heading(tree, capture.node, name, source) {
                if let Some(word) = read_parent(heading.as_slice()) {
                    parent = Some(word);
                }
                let ghost earlier = report::texts(interfaces@);
                let mut more = read_interfaces(heading.as_slice());
                let ghost added = report::texts(more@);
                interfaces.append(&mut more);
                assert(report::texts(interfaces@) =~= earlier + added);
            }
        }
        i += 1;
    }
    assert(found@.take(i as int) =~= found@);
    (parent, interfaces)
}

/// The class that a match names, if it names one.
pub fn read_class(tree: &SyntaxTree, found: &QueryMatch, source: &[u8]) -> (class: Option<Class>)
    requires
        query::captures_within(found@, tree@.len()),
    ensures
        match class {
            Some(c) => class_of(tree@, found@, source@) == Some(c@),
            None => class_of(tree@, found@, source@) is None,
        },
{
    let n: usize = match found.last_node(Role::Name) {
        Some(node) => node,
        None => return None,
    };
    let name = tree.spelled(n, source);
    if name.len() == 0 {
        return None;
    }
    let (parent_class, interfaces) = extract_class_info(tree, found, source);
    Some(Class { name: text_of(name.as_slice()), parent_class, interfaces })
}

/// The classes that the matches name, in their order.
pub fn collect_classes(tree: &SyntaxTree, matches: &Vec<QueryMatch>, source: &[u8]) -> (classes:
    Vec<Class>)
    requires
        query::matches_within(query::match_views(matches@), tree@.len()),
    ensures
        report::class_views(classes@) == classes_of(tree@, query::match_views(matches@), source@),
{
    let ghost all = query::match_views(matches@);
    let mut classes: Vec<Class> = Vec::new();
    let mut i: usize = 0;
    assert(report::class_views(classes@) =~= Seq::empty());
    while i < matches.len()
        invariant
            i <= matches@.len(),
            all == query::match_views(matches@),
            query::matches_within(all, tree@.len()),
            report::class_views(classes@) == classes_of(tree@, all.take(i as int), source@),
        decreases matches@.len() - i,
    {
        assert(all[i as int] == matches@[i as int]@);
        assert(all.take(i + 1).drop_last() =~= all.take(i as int));
        let ghost earlier = report::class_views(classes@);
        if let Some(class) = read_class(tree, &matches[i], source) {
            classes.push(class);
            assert(report::class_views(classes@) =~= earlier.push(class@));
        }
        i += 1;
    }
    assert(all.take(i as int) =~= all);
    classes
}

/// Every class that is reported has a name.
pub proof fn law_classes_are_named(
    nodes: Seq<NodeShape>,
    matches: Seq<Seq<CaptureView>>,
    source: Seq<u8>,
    i: int,
)
    requires
        0 <= i < classes_of(nodes, matches, source).len(),
    ensures
        classes_of(nodes, matches, source)[i].name.len() > 0,
    decreases matches.len(),
{
    if i < classes_of(nodes, matches.drop_last(), source).len() {
        law_classes_are_named(nodes, matches.drop_last(), source, i);
    }
}

proof fn lemma_prefix(s: Seq<char>, set: CharSet)
    ensures
        forall|c: char| #[trigger] text::prefix_without(s, set).contains(c) ==> !set.has(c),
        text::prefix_without(s, set).len() <= s.len(),
        text::prefix_without(s, set) == s.take(text::prefix_without(s, set).len() as int),
    decreases s.len(),
{
    if s.len() > 0 && !set.has(s.first()) {
        let rest = text::prefix_without(s.drop_first(), set);
        lemma_prefix(s.drop_first(), set);
        assert forall|c: char| #[trigger] text::prefix_without(s, set).contains(c) implies !set.has(
            c,
        ) by {
            let whole = text::prefix_without(s, set);
            let k = choose|k: int| 0 <= k < whole.len() && whole[k] == c;
            if k > 0 {
                assert(rest[k - 1] == c);
                assert(rest.contains(c));
            }
        }
        let whole = text::prefix_without(s, set);
        assert forall|k: int| 0 <= k < whole.len() implies whole[k] == s[k] by {
            if k > 0 {
                assert(whole[k] == rest[k - 1]);
                assert(s.drop_first().take(rest.len() as int)[k - 1] == s[k]);
            }
        }
        assert(whole =~= s.take(whole.len() as int));
    }
}

/// A parent class is a single word of the heading.
pub proof fn law_parent_is_a_word(heading: Seq<char>)
    ensures
        parent_in(heading) matches Some(name) ==> name.len() > 0 && forall|c: char| #[trigger]
            name.contains(c) ==> !text::white_space(c) && heading.contains(c),
{
    if let Some(rest) = text::second_piece(heading, "extends"@) {
        let start = text::trim_start(rest, CharSet::Blank);
        let word = text::first_word(rest);
        let name = text::trim_end(word, CharSet::TypeTail);
        text::lemma_find(heading, "extends"@, 0);
        text::lemma_find(text::after(heading, "extends"@)->0, "extends"@, 0);
        text::lemma_trim_start(rest, CharSet::Blank);
        lemma_prefix(start, CharSet::Blank);
        text::lemma_trim_end(word, CharSet::TypeTail);
        assert forall|c: char| #[trigger] name.contains(c) implies !text::white_space(c)
            && heading.contains(c) by {
            let k = choose|k: int| 0 <= k < name.len() && name[k] == c;
            assert(word[k] == c);
            assert(word.contains(c));
            assert(start[k] == c);
            let at = rest.len() - start.len() + k;
            assert(rest[at] == c);
            let from = text::find(heading, "extends"@)->0 + "extends"@.len();
            assert(heading[from + at] == c);
        }
    }
}

/// The word that follows `extends` in the heading of a class is its parent.
pub proof fn law_parent_follows_extends(
    head: Seq<char>,
    blank: Seq<char>,
    name: Seq<char>,
    rest: Seq<char>,
)
    requires
        !text::contains(head, "extends"@),
        blank.len() > 0,
        forall|i: int| 0 <= i < blank.len() ==> text::white_space(#[trigger] blank[i]),
        name.len() > 0,
        forall|i: int| 0 <= i < name.len() ==> !text::white_space(#[trigger] name[i]),
        !CharSet::TypeTail.has(name.last()),
        !text::contains(name, "extends"@),
        rest.len() > 0 ==> text::white_space(rest.first()),
    ensures
        parent_in(head + "extends"@ + blank + name + rest) == Some(name),
{
    reveal_strlit("extends");
    let word = "extends"@;
    let heading = head + word + blank + name + rest;
    let tail = blank + name + rest;
    assert(heading =~= head + word + tail);
    assert((word + tail).subrange(0, 7) =~= word);
    assert(Seq::<char>::empty() + head + (word + tail) =~= head + word + tail);
    text::lemma_find_after(Seq::empty(), head, word + tail, word);
    assert(heading.skip(head.len() as int + 7) =~= tail);
    lemma_word_is_kept(blank, name, rest);
}

/// What comes before another `extends` still starts with the word.
proof fn lemma_word_is_kept(blank: Seq<char>, name: Seq<char>, rest: Seq<char>)
    requires
        forall|i: int| 0 <= i < blank.len() ==> text::white_space(#[trigger] blank[i]),
        name.len() > 0,
        forall|i: int| 0 <= i < name.len() ==> !text::white_space(#[trigger] name[i]),
        !text::contains(name, "extends"@),
        rest.len() > 0 ==> text::white_space(rest.first()),
    ensures
        text::first_word(text::before(blank + name + rest, "extends"@)) == name,
{
    reveal_strlit("extends");
    let word = "extends"@;
    let tail = blank + name + rest;
    let start = blank.len() as int;
    let end = start + name.len();
    text::lemma_find(tail, word, 0);
    text::lemma_find(name, word, 0);
    let cut = match text::find(tail, word) {
        Some(at) => at,
        None => tail.len() as int,
    };
    assert(cut >= end) by {
        if cut < end {
            let window = tail.subrange(cut, cut + 7);
            assert(window[0] == tail[cut]);
            if cut < start {
                assert(tail[cut] == blank[cut]);
            } else if cut + 7 <= end {
                assert(name.subrange(cut - start, cut - start + 7) =~= window);
                assert(text::occurs_at(name, word, cut - start));
            } else {
                assert(window[end - cut] == rest[0]);
            }
        }
    }
    assert(text::before(tail, word) =~= blank + name + rest.take(cut - end));
    text::lemma_first_word(blank, name, rest.take(cut - end));
}

/// What a match shows does not depend on the other matches: the classes of two
/// lists of matches are those of the first, followed by those of the second.
pub proof fn law_classes_of_each_match(
    nodes: Seq<NodeShape>,
    first: Seq<Seq<CaptureView>>,
    second: Seq<Seq<CaptureView>>,
    source: Seq<u8>,
)
    ensures
        classes_of(nodes, first + second, source) == classes_of(nodes, first, source) + classes_of(
            nodes,
            second,
            source,
        ),
    decreases second.len(),
{
    if second.len() == 0 {
        assert(first + second =~= first);
    } else {
        law_classes_of_each_match(nodes, first, second.drop_last(), source);
        assert((first + second).drop_last() =~= first + second.drop_last());
        assert((first + second).last() == second.last());
    }
}

/// The interfaces that a heading lists after `implements` are those that are
/// reported, each without what trails the name of a type.
pub proof fn law_interfaces_are_listed(head: Seq<char>, list: Seq<char>)
    requires
        !text::contains(head, "implements"@),
        !text::contains(list, "implements"@),
    ensures
        interfaces_in(head + "implements"@ + list) == text::listed(list).map_values(
            |entry: Seq<char>| text::trim_end(entry, CharSet::TypeTail),
        ),
{
    reveal_strlit("implements");
    let word = "implements"@;
    let heading = head + word + list;
    let tail = word + list;
    assert(tail.subrange(0, 10) =~= word);
    assert(Seq::<char>::empty() + head + tail =~= heading);
    text::lemma_find_after(Seq::empty(), head, tail, word);
    assert(heading.skip(head.len() as int + 10) =~= list);
}

/// What is dropped of two texts does not depend on where they are put together,
/// unless an arrow is put together there.
proof fn lemma_arguments_split(first: Seq<char>, second: Seq<char>, depth: nat)
    requires
        first.len() > 0 && second.len() > 0 ==> first.last() != '=' || second[0] != '>',
    ensures
        without_arguments(first + second, depth) == without_arguments(first, depth)
            + without_arguments(second, depth_after(first, depth)),
        depth_after(first + second, depth) == depth_after(second, depth_after(first, depth)),
    decreases first.len(),
{
    let whole = first + second;
    if first.len() == 0 {
        assert(whole =~= second);
        assert(first + without_arguments(second, depth) =~= without_arguments(second, depth));
    } else if starts_with_arrow(first) {
        assert(whole.skip(2) =~= first.skip(2) + second);
        assert(whole.take(2) =~= first.take(2));
        lemma_arguments_split(first.skip(2), second, depth);
        assert(without_arguments(whole, depth) =~= without_arguments(first, depth)
            + without_arguments(second, depth_after(first, depth)));
    } else {
        assert(!starts_with_arrow(whole)) by {
            if first.len() == 1 {
                assert(first.last() == first[0]);
            }
        }
        assert(whole.skip(1) =~= first.skip(1) + second);
        assert(whole.take(1) =~= first.take(1));
        let next = if first[0] == '<' {
            depth + 1
        } else if first[0] == '>' && depth > 0 {
            (depth - 1) as nat
        } else {
            depth
        };
        assert(first.len() > 1 ==> first.skip(1).last() == first.last());
        lemma_arguments_split(first.skip(1), second, next);
        assert(without_arguments(whole, depth) =~= without_arguments(first, depth)
            + without_arguments(second, depth_after(first, depth)));
    }
}

proof fn lemma_flat(inner: Seq<char>, depth: nat)
    requires
        depth > 0,
        forall|i: int| 0 <= i < inner.len() ==> #[trigger] inner[i] != '<' && inner[i] != '>',
    ensures
        without_arguments(inner, depth).len() == 0,
        depth_after(inner, depth) == depth,
    decreases inner.len(),
{
    if inner.len() > 0 {
        assert(inner.len() >= 2 ==> inner[1] != '>');
        assert forall|i: int| 0 <= i < inner.skip(1).len() implies #[trigger] inner.skip(1)[i]
            != '<' && inner.skip(1)[i] != '>' by {
            assert(inner.skip(1)[i] == inner[i + 1]);
        }
        lemma_flat(inner.skip(1), depth);
    }
}

/// The arguments of a type are left out of a heading.
pub proof fn law_arguments_are_dropped(head: Seq<char>, inner: Seq<char>, tail: Seq<char>)
    requires
        depth_after(head, 0) == 0,
        forall|i: int| 0 <= i < inner.len() ==> #[trigger] inner[i] != '<' && inner[i] != '>',
        inner.len() > 0 ==> inner.last() != '=',
    ensures
        without_arguments(head + seq!['<'] + inner + seq!['>'] + tail, 0) == without_arguments(
            head,
            0,
        ) + without_arguments(tail, 0),
{
    let open = seq!['<'];
    let close = seq!['>'];
    let rest = open + (inner + (close + tail));
    assert(head + open + inner + close + tail =~= head + rest);
    lemma_arguments_split(head, rest, 0);
    assert(rest.skip(1) =~= inner + (close + tail));
    lemma_arguments_split(inner, close + tail, 1);
    lemma_flat(inner, 1);
    assert((close + tail).skip(1) =~= tail);
    assert(without_arguments(inner, 1) + without_arguments(tail, 0) =~= without_arguments(tail, 0));
}

/// Nothing in the body of a class counts as heritage: the heading is that of the
/// text before the brace, if all angle brackets in it are closed.
pub proof fn law_body_is_no_heritage(heading: Seq<char>, body: Seq<char>)
    requires
        !heading.contains('{'),
        depth_after(heading, 0) == 0,
    ensures
        heading_of(heading + seq!['{'] + body) == without_arguments(heading, 0),
{
    let plain = without_arguments(heading, 0);
    let rest = seq!['{'] + body;
    assert(heading + seq!['{'] + body =~= heading + rest);
    lemma_arguments_split(heading, rest, 0);
    assert(rest.take(1) =~= seq!['{']);
    let more = without_arguments(rest.skip(1), 0);
    assert(plain + (seq!['{'] + more) =~= plain + seq!['{'] + more);
    lemma_arguments_are_part(heading, 0, '{');
    text::lemma_find_mark(plain, '{', more);
    assert((plain + seq!['{'] + more).take(plain.len() as int) =~= plain);
}

/// What is left of a text holds no new character.
proof fn lemma_arguments_are_part(s: Seq<char>, depth: nat, c: char)
    requires
        !s.contains(c),
    ensures
        !without_arguments(s, depth).contains(c),
    decreases s.len(),
{
    if s.len() > 0 {
        let step: int = if starts_with_arrow(s) {
            2
        } else {
            1
        };
        let rest = s.skip(step);
        assert forall|i: int| 0 <= i < rest.len() implies rest[i] != c by {
            assert(s.contains(s[i + step]));
        }
        lemma_arguments_are_part(rest, depth, c);
        lemma_arguments_are_part(rest, depth + 1, c);
        if depth > 0 {
            lemma_arguments_are_part(rest, (depth - 1) as nat, c);
        }
        let whole = without_arguments(s, depth);
        assert forall|i: int| 0 <= i < whole.len() implies whole[i] != c by {
            if depth == 0 && !(s[0] == '<' && !starts_with_arrow(s)) {
                if i < step {
                    assert(whole[i] == s[i]);
                    assert(s.contains(s[i]));
                } else {
                    let left = without_arguments(rest, 0);
                    assert(whole[i] == left[i - step]);
                    assert(left.contains(left[i - step]));
                }
            } else {
                assert(whole.contains(whole[i]));
            }
        }
    }
}

/// Text without an opening angle bracket holds no type arguments, and is kept.
pub proof fn law_plain_text_is_kept(s: Seq<char>)
    requires
        !s.contains('<'),
    ensures
        without_arguments(s, 0) == s,
        depth_after(s, 0) == 0,
    decreases s.len(),
{
    if s.len() > 0 {
        let step: int = if starts_with_arrow(s) {
            2
        } else {
            1
        };
        let rest = s.skip(step);
        assert forall|i: int| 0 <= i < rest.len() implies rest[i] != '<' by {
            assert(s.contains(s[i + step]));
        }
        assert(s.contains(s[0]));
        law_plain_text_is_kept(rest);
        assert(s.take(step) + rest =~= s);
    }
}

/// Arguments in angle brackets can be left out of a text, also out of other
/// arguments, and the same is left of it.
pub proof fn law_arguments_do_not_matter(
    head: Seq<char>,
    inner: Seq<char>,
    tail: Seq<char>,
    depth: nat,
)
    requires
        forall|i: int| 0 <= i < inner.len() ==> #[trigger] inner[i] != '<' && inner[i] != '>',
        inner.len() > 0 ==> inner.last() != '=',
        head.len() > 0 && tail.len() > 0 ==> head.last() != '=' || tail[0] != '>',
    ensures
        without_arguments(head + seq!['<'] + inner + seq!['>'] + tail, depth) == without_arguments(
            head + tail,
            depth,
        ),
{
    let open = seq!['<'];
    let close = seq!['>'];
    let within = depth_after(head, depth);
    let rest = open + (inner + (close + tail));
    assert(head + open + inner + close + tail =~= head + rest);
    lemma_arguments_split(head, rest, depth);
    lemma_arguments_split(head, tail, depth);
    assert(rest.skip(1) =~= inner + (close + tail));
    lemma_arguments_split(inner, close + tail, within + 1);
    lemma_flat(inner, within + 1);
    assert((close + tail).skip(1) =~= tail);
    assert(!starts_with_arrow(close + tail));
    assert(without_arguments(inner, within + 1) + without_arguments(tail, within)
        =~= without_arguments(tail, within));
}

proof fn lemma_body_child(nodes: Seq<NodeShape>, class: int, from: int, b: int)
    requires
        0 <= class < from <= b <= nodes.len(),
        forall|k: int| from <= k < b ==> (#[trigger] nodes[k]).depth > nodes[class].depth,
        forall|k: int|
            from <= k < b && (#[trigger] nodes[k]).depth == nodes[class].depth + 1
                ==> nodes[k].kind != "class_body"@ && nodes[k].kind != "enum_class_body"@,
        b < nodes.len() ==> nodes[b].depth <= nodes[class].depth || nodes[b].depth
            == nodes[class].depth + 1 && (nodes[b].kind == "class_body"@ || nodes[b].kind
            == "enum_class_body"@),
    ensures
        body_child(nodes, class, from) == if b < nodes.len() && nodes[b].depth > nodes[class].depth {
            Some(b)
        } else {
            None
        },
    decreases b - from,
{
    if from < b {
        lemma_body_child(nodes, class, from + 1, b);
    }
}

/// The heritage of a class with a body is read from all of its text between its
/// name, with the type parameters behind it, and the body, without type
/// arguments.
pub proof fn law_heading_goes_from_name_to_body(
    nodes: Seq<NodeShape>,
    class: int,
    n: int,
    b: int,
    before: Seq<u8>,
    heading: Seq<char>,
    rest: Seq<u8>,
)
    requires
        0 <= class < b < nodes.len(),
        forall|k: int| class < k < b ==> (#[trigger] nodes[k]).depth > nodes[class].depth,
        forall|k: int|
            class < k < b && (#[trigger] nodes[k]).depth == nodes[class].depth + 1 ==> nodes[k].kind
                != "class_body"@ && nodes[k].kind != "enum_class_body"@,
        nodes[b].depth == nodes[class].depth + 1,
        nodes[b].kind == "class_body"@ || nodes[b].kind == "enum_class_body"@,
        before.len() == match tree::next_sibling_of(nodes, n) {
            Some(next) => if nodes[next].kind == "type_parameters"@ {
                nodes[next].end_byte
            } else {
                nodes[n].end_byte
            },
            None => nodes[n].end_byte,
        },
        nodes[class].start_byte <= before.len() <= nodes[class].end_byte,
        nodes[b].start_byte == before.len() + vstd::utf8::encode_utf8(heading).len(),
    ensures
        heritage_heading(
            nodes,
            class,
            Some(n),
            before + vstd::utf8::encode_utf8(heading) + rest,
        ) == Some(without_arguments(heading, 0)),
{
    lemma_body_child(nodes, class, class + 1, b);
    tree::law_text_of_a_span(
        NodeShape { start_byte: before.len(), end_byte: nodes[b].start_byte, ..nodes[class] },
        before,
        heading,
        rest,
    );
}

/// The heritage of a class without a body is read from all of its text behind its
/// name, up to the first brace.
pub proof fn law_heading_goes_from_name_to_brace(
    nodes: Seq<NodeShape>,
    class: int,
    n: int,
    end: int,
    before: Seq<u8>,
    whole: Seq<char>,
    rest: Seq<u8>,
)
    requires
        0 <= class < end <= nodes.len(),
        forall|k: int| class < k < end ==> (#[trigger] nodes[k]).depth > nodes[class].depth,
        end < nodes.len() ==> nodes[end].depth <= nodes[class].depth,
        forall|k: int|
            class < k < end && (#[trigger] nodes[k]).depth == nodes[class].depth + 1
                ==> nodes[k].kind != "class_body"@ && nodes[k].kind != "enum_class_body"@,
        before.len() == match tree::next_sibling_of(nodes, n) {
            Some(next) => if nodes[next].kind == "type_parameters"@ {
                nodes[next].end_byte
            } else {
                nodes[n].end_byte
            },
            None => nodes[n].end_byte,
        },
        nodes[class].start_byte <= before.len(),
        nodes[class].end_byte == before.len() + vstd::utf8::encode_utf8(whole).len(),
    ensures
        ({
            let found = heritage_heading(
                nodes,
                class,
                Some(n),
                before + vstd::utf8::encode_utf8(whole) + rest,
            );
            &&& found is Some
            &&& !found->0.contains('{')
            &&& found->0.len() <= without_arguments(whole, 0).len()
            &&& found->0 == without_arguments(whole, 0).take(found->0.len() as int)
            &&& found->0.len() < without_arguments(whole, 0).len() ==> without_arguments(
                whole,
                0,
            )[found->0.len() as int] == '{'
        }),
{
    lemma_body_child(nodes, class, class + 1, end);
    tree::law_text_of_a_span(
        NodeShape { start_byte: before.len(), ..nodes[class] },
        before,
        whole,
        rest,
    );
    let plain = without_arguments(whole, 0);
    let heading = text::before(plain, seq!['{']);
    text::law_text_is_cut_at_the_first_pattern(plain, seq!['{']);
    assert(heading =~= plain.take(heading.len() as int));
    assert forall|i: int| 0 <= i < heading.len() implies heading[i] != '{' by {
        assert(!text::occurs_at(plain, seq!['{'], i));
        if plain[i] == '{' {
            assert(plain.subrange(i, i + 1) =~= seq!['{']);
        }
    }
    if let Some(body) = text::after(plain, seq!['{']) {
        assert((heading + seq!['{'] + body)[heading.len() as int] == '{');
    }
}

proof fn lemma_no_class(
    nodes: Seq<NodeShape>,
    captures: Seq<CaptureView>,
    name: Option<int>,
    source: Seq<u8>,
)
    requires
        forall|k: int| 0 <= k < captures.len() ==> (#[trigger] captures[k]).name != "class"@,
    ensures
        heritage_among(nodes, captures, name, source) == (
            None::<Seq<char>>,
            Seq::<Seq<char>>::empty(),
        ),
    decreases captures.len(),
{
    if captures.len() > 0 {
        assert(captures[captures.len() - 1].name != "class"@);
        assert forall|k: int| 0 <= k < captures.drop_last().len() implies (
        #[trigger] captures.drop_last()[k]).name != "class"@ by {
            assert(captures.drop_last()[k] == captures[k]);
        }
        lemma_no_class(nodes, captures.drop_last(), name, source);
    }
}

proof fn lemma_one_class(
    nodes: Seq<NodeShape>,
    captures: Seq<CaptureView>,
    at: int,
    name: Option<int>,
    source: Seq<u8>,
    heading: Seq<char>,
)
    requires
        0 <= at < captures.len(),
        captures[at].name == "class"@,
        forall|k: int|
            0 <= k < captures.len() && k != at ==> (#[trigger] captures[k]).name != "class"@,
        heritage_heading(nodes, captures[at].node, name, source) == Some(heading),
    ensures
        heritage_among(nodes, captures, name, source) == (
            parent_in(heading),
            interfaces_in(heading),
        ),
    decreases captures.len(),
{
    let rest = captures.drop_last();
    assert forall|k: int| 0 <= k < rest.len() && k != at implies (#[trigger] rest[k]).name
        != "class"@ by {
        assert(rest[k] == captures[k]);
    }
    if at == captures.len() - 1 {
        lemma_no_class(nodes, rest, name, source);
        assert(Seq::<Seq<char>>::empty() + interfaces_in(heading) =~= interfaces_in(heading));
    } else {
        assert(captures[captures.len() - 1].name != "class"@);
        assert(rest[at] == captures[at]);
        lemma_one_class(nodes, rest, at, name, source, heading);
    }
}

/// A match that captures a class and its name shows one class, with that name and
/// with the parent and the interfaces of its heading.
pub proof fn law_match_shows_one_class(
    nodes: Seq<NodeShape>,
    captures: Seq<CaptureView>,
    at: int,
    source: Seq<u8>,
    name: Seq<char>,
    heading: Seq<char>,
)
    requires
        query::last_in_role(captures, Role::Name) is Some,
        tree::node_text(nodes[query::last_in_role(captures, Role::Name)->0], source) == Some(name),
        name.len() > 0,
        0 <= at < captures.len(),
        captures[at].name == "class"@,
        forall|k: int|
            0 <= k < captures.len() && k != at ==> (#[trigger] captures[k]).name != "class"@,
        heritage_heading(
            nodes,
            captures[at].node,
            query::last_in_role(captures, Role::Name),
            source,
        ) == Some(heading),
    ensures
        classes_of(nodes, seq![captures], source) == seq![
            ClassView {
                name,
                parent_class: parent_in(heading),
                interfaces: interfaces_in(heading),
            },
        ],
{
    reveal_with_fuel(classes_of, 2);
    assert(seq![captures].drop_last() =~= Seq::empty());
    assert(seq![captures].last() == captures);
    lemma_one_class(
        nodes,
        captures,
        at,
        query::last_in_role(captures, Role::Name),
        source,
        heading,
    );
    assert(classes_of(nodes, seq![captures], source) =~= seq![
        ClassView { name, parent_class: parent_in(heading), interfaces: interfaces_in(heading) },
    ]);
}

/// A match that captures no name, or one without a text, shows no class.
pub proof fn law_no_class_without_a_name(
    nodes: Seq<NodeShape>,
    captures: Seq<CaptureView>,
    source: Seq<u8>,
)
    requires
        match query::last_in_role(captures, Role::Name) {
            Some(n) => match tree::node_text(nodes[n], source) {
                Some(name) => name.len() == 0,
                None => true,
            },
            None => true,
        },
    ensures
        classes_of(nodes, seq![captures], source).len() == 0,
{
    reveal_with_fuel(classes_of, 2);
    assert(seq![captures].drop_last() =~= Seq::empty());
    assert(seq![captures].last() == captures);
}

/// A heading without `extends` shows no parent, and one without `implements` no
/// interfaces.
pub proof fn law_no_heritage_without_its_words(heading: Seq<char>)
    ensures
        (forall|i: int| !#[trigger] text::occurs_at(heading, "extends"@, i)) ==> parent_in(
            heading,
        ) is None,
        (forall|i: int| !#[trigger] text::occurs_at(heading, "implements"@, i)) ==> interfaces_in(
            heading,
        ).len() == 0,
{
    text::lemma_find(heading, "extends"@, 0);
    text::lemma_find(heading, "implements"@, 0);
}

/// What may trail the name of a type is dropped from the name of a parent; where
/// nothing else follows `extends`, there is no parent.
pub proof fn law_marks_behind_the_parent_are_dropped(
    head: Seq<char>,
    blank: Seq<char>,
    name: Seq<char>,
    marks: Seq<char>,
    rest: Seq<char>,
)
    requires
        !text::contains(head, "extends"@),
        blank.len() > 0,
        forall|i: int| 0 <= i < blank.len() ==> text::white_space(#[trigger] blank[i]),
        name.len() + marks.len() > 0,
        forall|i: int| 0 <= i < name.len() ==> !text::white_space(#[trigger] name[i]),
        forall|i: int|
            0 <= i < marks.len() ==> seq!['<', ',', '>'].contains(#[trigger] marks[i]),
        name.len() > 0 ==> !seq!['<', ',', '>'].contains(name.last()),
        !text::contains(name + marks, "extends"@),
        rest.len() > 0 ==> text::white_space(rest.first()),
    ensures
        parent_in(head + "extends"@ + blank + (name + marks) + rest) == if name.len() > 0 {
            Some(name)
        } else {
            None
        },
{
    reveal_strlit("extends");
    let word = "extends"@;
    let marked = name + marks;
    let heading = head + word + blank + marked + rest;
    let tail = blank + marked + rest;
    let tails = seq!['<', ',', '>'];
    assert(tails[0] == '<' && tails[1] == ',' && tails[2] == '>');
    assert forall|i: int| 0 <= i < marked.len() implies !text::white_space(#[trigger] marked[i]) by {
        if i < name.len() {
            assert(marked[i] == name[i]);
        } else {
            assert(tails.contains(marks[i - name.len()]));
        }
    }
    assert(heading =~= head + word + tail);
    assert((word + tail).subrange(0, 7) =~= word);
    assert(Seq::<char>::empty() + head + (word + tail) =~= head + word + tail);
    text::lemma_find_after(Seq::empty(), head, word + tail, word);
    assert(heading.skip(head.len() as int + 7) =~= tail);
    lemma_word_is_kept(blank, marked, rest);
    assert forall|i: int| 0 <= i < marks.len() implies CharSet::TypeTail.has(
        #[trigger] marks[i],
    ) by {
        assert(tails.contains(marks[i]));
    }
    text::law_end_is_trimmed(name, marks, CharSet::TypeTail);
}

/// The captures of a class add up: the interfaces of all are listed in order, and
/// the parent is that of the last that shows one.
pub proof fn law_class_captures_add_up(
    nodes: Seq<NodeShape>,
    first: Seq<CaptureView>,
    second: Seq<CaptureView>,
    name: Option<int>,
    source: Seq<u8>,
)
    ensures
        ({
            let (parent, interfaces) = heritage_among(nodes, first + second, name, source);
            let (early, listed_early) = heritage_among(nodes, first, name, source);
            let (late, listed_late) = heritage_among(nodes, second, name, source);
            &&& interfaces == listed_early + listed_late
            &&& parent == if late is Some {
                late
            } else {
                early
            }
        }),
    decreases second.len(),
{
    if second.len() == 0 {
        assert(first + second =~= first);
        let early = heritage_among(nodes, first, name, source);
        assert(early.1 + Seq::empty() =~= early.1);
    } else {
        let rest = second.drop_last();
        law_class_captures_add_up(nodes, first, rest, name, source);
        assert((first + second).drop_last() =~= first + rest);
        assert((first + second).last() == second.last());
        let early = heritage_among(nodes, first, name, source);
        let late = heritage_among(nodes, rest, name, source);
        if let Some(heading) = heritage_heading(nodes, second.last().node, name, source) {
            assert(early.1 + late.1 + interfaces_in(heading) =~= early.1 + (late.1
                + interfaces_in(heading)));
        }
    }
}

/// A class whose heading has no text shows neither parent nor interfaces.
pub proof fn law_no_heritage_without_a_heading(
    nodes: Seq<NodeShape>,
    class: int,
    name: Option<int>,
    source: Seq<u8>,
)
    requires
        heritage_heading(nodes, class, name, source) is None,
    ensures
        heritage_among(
            nodes,
            seq![CaptureView { name: "class"@, node: class }],
            name,
            source,
        ) == (None::<Seq<char>>, Seq::<Seq<char>>::empty()),
{
    let captures = seq![CaptureView { name: "class"@, node: class }];
    assert(captures.drop_last() =~= Seq::empty());
    assert(captures.last().node == class);
    reveal_with_fuel(heritage_among, 2);
}

/// Without a name, or with one that does not end within the class, the heritage of
/// a class is read from its start.
pub proof fn law_heading_starts_with_the_class(nodes: Seq<NodeShape>, class: int, n: int)
    requires
        tree::next_sibling_of(nodes, n) is None,
    ensures
        heritage_start(nodes, class, None) == nodes[class].start_byte,
        nodes[n].end_byte < nodes[class].start_byte || nodes[n].end_byte > nodes[class].end_byte
            ==> heritage_start(nodes, class, Some(n)) == nodes[class].start_byte,
{
}

/// The head of an arrow closes no angle bracket: outside of all of them it is kept,
/// and inside it is left out.
pub proof fn law_arrows_close_nothing(head: Seq<char>, tail: Seq<char>, depth: nat)
    ensures
        ({
            let within = depth_after(head, depth);
            without_arguments(head + seq!['=', '>'] + tail, depth) == without_arguments(head, depth)
                + (if within == 0 {
                seq!['=', '>']
            } else {
                Seq::empty()
            }) + without_arguments(tail, within)
        }),
{
    let arrow = seq!['=', '>'];
    let within = depth_after(head, depth);
    let rest = arrow + tail;
    assert(head + arrow + tail =~= head + rest);
    lemma_arguments_split(head, rest, depth);
    assert(rest.skip(2) =~= tail);
    assert(rest.take(2) =~= arrow);
    let kept: Seq<char> = if within == 0 {
        arrow
    } else {
        Seq::empty()
    };
    assert(without_arguments(head, depth) + without_arguments(rest, within) =~= without_arguments(
        head,
        depth,
    ) + kept + without_arguments(tail, within));
}

/// The heritage in a heading is read up to where its word comes again.
pub proof fn law_heritage_ends_where_its_word_comes_again(
    head: Seq<char>,
    list: Seq<char>,
    tail: Seq<char>,
)
    ensures
        !text::contains(head, "implements"@) && !text::contains(list, "implements"@)
            ==> interfaces_in(head + "implements"@ + list + "implements"@ + tail) == interfaces_in(
            head + "implements"@ + list,
        ),
        !text::contains(head, "extends"@) && !text::contains(list, "extends"@) ==> parent_in(
            head + "extends"@ + list + "extends"@ + tail,
        ) == parent_in(head + "extends"@ + list),
{
    reveal_strlit("implements");
    reveal_strlit("extends");
    if !text::contains(head, "implements"@) && !text::contains(list, "implements"@) {
        text::law_second_piece_ends_at_the_next_pattern(head, list, tail, "implements"@);
    }
    if !text::contains(head, "extends"@) && !text::contains(list, "extends"@) {
        text::law_second_piece_ends_at_the_next_pattern(head, list, tail, "extends"@);
    }
}

/// Where nothing but white space, or nothing but what trails the name of a type,
/// follows `extends`, there is no parent.
pub proof fn law_no_parent_without_a_word(head: Seq<char>, blank: Seq<char>, marks: Seq<char>)
    requires
        !text::contains(head, "extends"@),
        forall|i: int| 0 <= i < blank.len() ==> text::white_space(#[trigger] blank[i]),
        forall|i: int| 0 <= i < marks.len() ==> seq!['<', ',', '>'].contains(#[trigger] marks[i]),
    ensures
        parent_in(head + "extends"@ + (blank + marks)) is None,
{
    reveal_strlit("extends");
    let rest = blank + marks;
    let tails = seq!['<', ',', '>'];
    assert forall|i: int| 0 <= i < marks.len() implies CharSet::TypeTail.has(#[trigger] marks[i])
        && !text::white_space(marks[i]) by {
        let k = choose|k: int| 0 <= k < tails.len() && tails[k] == marks[i];
        assert(k == 0 || k == 1 || k == 2);
    }
    text::lemma_find(rest, "extends"@, 0);
    if let Some(at) = text::find(rest, "extends"@) {
        assert(rest.subrange(at, at + 7)[0] == rest[at]);
        if at < blank.len() {
            assert(rest[at] == blank[at]);
        } else {
            assert(rest[at] == marks[at - blank.len()]);
        }
    }
    text::law_second_piece_ends_at_the_next_pattern(head, rest, Seq::empty(), "extends"@);
    if marks.len() > 0 {
        assert(rest =~= blank + marks + Seq::empty());
        text::lemma_first_word(blank, marks, Seq::empty());
    } else {
        assert(rest =~= blank);
        text::law_blank_text_has_no_word(blank);
    }
    let word = text::first_word(rest);
    let name = text::trim_end(word, CharSet::TypeTail);
    text::lemma_trim_end(word, CharSet::TypeTail);
    if name.len() > 0 {
        assert(name.last() == marks[name.len() - 1]);
    }
}

} // verus!
