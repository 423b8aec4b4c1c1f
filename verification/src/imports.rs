//! Imports: the names that a file takes from modules.
use vstd::prelude::*;
use vstd::slice::slice_subrange;

use crate::query::{CaptureView, QueryMatch, Role};
use crate::report::{Import, ImportView};
use crate::text::{
    chars_of, has_text, is_white_space, same_text, text_after, text_after_last, text_before,
    text_first_word, text_listed, text_of, text_second, text_trim, text_trim_end, text_trim_set,
    CharSet,
};
use crate::tree::{NodeShape, SyntaxNode, SyntaxTree};
use crate::{query, report, text, tree};

verus! {

/// A module as it is written, without the quotes around it.
pub open spec fn module_name(written: Seq<char>) -> Seq<char> {
    text::trim_set(text::trim_set(written, CharSet::Only('\'')), CharSet::Only('"'))
}

/// Whether an entry in a list of imports is marked as that of a type.
pub open spec fn marked_type(entry: Seq<char>) -> bool {
    entry.len() > 4 && entry.take(4) == "type"@ && text::white_space(entry[4])
}

/// An entry in a list of imports without the mark of a type.
pub open spec fn unmarked(entry: Seq<char>) -> Seq<char> {
    if marked_type(entry) {
        text::trim(entry.skip(4))
    } else {
        entry
    }
}

/// The local name of an entry in a list of named imports: what follows ` as `,
/// else the first word.
pub open spec fn local_name(entry: Seq<char>) -> Seq<char> {
    match text::second_piece(entry, " as "@) {
        Some(renamed) => text::trim(renamed),
        None => text::first_word(unmarked(entry)),
    }
}

/// The local name of an entry outside braces: for a namespace what follows
/// `* as `, else the entry itself.
pub open spec fn clause_name(entry: Seq<char>) -> Seq<char> {
    match text::second_piece(entry, "* as "@) {
        Some(rest) => text::first_word(rest),
        None => unmarked(entry),
    }
}

/// An import of each of `names` from `module`.
pub open spec fn imports_named(names: Seq<Seq<char>>, module: Seq<char>) -> Seq<ImportView> {
    names.map_values(
        |name: Seq<char>| ImportView { source_entity: name, target_entity: module },
    )
}

/// What stands between `import` and the module in an import statement.
pub open spec fn clause_of(head: Seq<char>) -> Seq<char> {
    match text::after(head, "import"@) {
        Some(rest) => text::trim_end(rest, CharSet::Blank),
        None => Seq::empty(),
    }
}

/// Whether the last word of a clause is `from`.
pub open spec fn ends_with_from(clause: Seq<char>) -> bool {
    &&& clause.len() >= 4
    &&& clause.skip(clause.len() - 4) == "from"@
    &&& clause.len() > 4 ==> text::white_space(clause[clause.len() - 5])
}

/// The names that an import statement brings in, by its head, which ends where
/// the module starts: those in braces; without braces, those before `from`; else
/// a namespace, or the empty name, for an import that is made for its effects.
pub open spec fn names_in(head: Seq<char>) -> Seq<Seq<char>> {
    let clause = clause_of(head);
    match text::second_piece(head, seq!['{']) {
        Some(named) => text::listed(text::before(named, seq!['}'])).map_values(
            |entry: Seq<char>| local_name(entry),
        ),
        None => if ends_with_from(clause) {
            text::listed(clause.take(clause.len() - 4)).map_values(
                |entry: Seq<char>| clause_name(entry),
            )
        } else if text::contains(clause, "* as "@) {
            seq![clause_name(clause)]
        } else {
            seq![Seq::empty()]
        },
    }
}

/// Whether imports of the kind name a path, and with it its last segment: those
/// of Kotlin and Go. Other imports list the names that they bring in.
pub open spec fn path_import(kind: Seq<char>) -> bool {
    kind == "import"@ || kind == "import_spec"@
}

/// What separates the segments of a path in imports of the kind.
pub open spec fn separator(kind: Seq<char>) -> char {
    if kind == "import"@ {
        '.'
    } else {
        '/'
    }
}

/// The text of the import at `whole` up to the module at `module`.
pub open spec fn head_text(nodes: Seq<NodeShape>, whole: int, module: int, source: Seq<u8>) -> Option<
    Seq<char>,
> {
    let end_byte = nodes[module].start_byte;
    if nodes[whole].start_byte <= end_byte <= nodes[whole].end_byte {
        tree::node_text(NodeShape { end_byte, ..nodes[whole] }, source)
    } else {
        tree::node_text(nodes[whole], source)
    }
}

/// The names that the import at `whole` brings in from the module at `n`, which
/// is named `module`.
pub open spec fn whole_names(
    nodes: Seq<NodeShape>,
    whole: int,
    n: int,
    module: Seq<char>,
    source: Seq<u8>,
) -> Option<Seq<Seq<char>>> {
    let kind = nodes[whole].kind;
    match head_text(nodes, whole, n, source) {
        Some(head) => Some(
            if path_import(kind) {
                seq![text::after_last(module, separator(kind))]
            } else {
                names_in(head)
            },
        ),
        None => None,
    }
}

/// The imports that a match shows: those of the import as a whole; else the
/// last segment of the target; else the last segment of the module.
/// `with_calls` says whether calls are looked for in the language as well; a
/// module on its own is an import only there.
pub open spec fn match_imports(
    nodes: Seq<NodeShape>,
    captures: Seq<CaptureView>,
    source: Seq<u8>,
    with_calls: bool,
) -> Seq<ImportView> {
    match query::last_in_role(captures, Role::Source) {
        Some(n) => {
            let module = module_name(tree::text_or_empty(nodes[n], source));
            let target = query::last_in_role(captures, Role::Target);
            let names = match query::first_in_role(captures, Role::Import) {
                Some(whole) => whole_names(nodes, whole, n, module, source),
                None => None,
            };
            if names is Some {
                imports_named(names->0, module)
            } else if target is Some {
                let path = tree::text_or_empty(nodes[target->0], source);
                imports_named(seq![text::after_last(path, '.')], path)
            } else if with_calls {
                imports_named(seq![text::after_last(module, '/')], module)
            } else {
                Seq::empty()
            }
        },
        None => Seq::empty(),
    }
}

/// The imports that the matches show, in their order.
pub open spec fn imports_of(
    nodes: Seq<NodeShape>,
    matches: Seq<Seq<CaptureView>>,
    source: Seq<u8>,
    with_calls: bool,
) -> Seq<ImportView>
    decreases matches.len(),
{
    if matches.len() == 0 {
        Seq::empty()
    } else {
        imports_of(nodes, matches.drop_last(), source, with_calls) + match_imports(
            nodes,
            matches.last(),
            source,
            with_calls,
        )
    }
}

fn drop_mark<'a>(entry: &'a [char]) -> (name: &'a [char])
    ensures
        name@ == unmarked(entry@),
{
    proof {
        reveal_strlit("type");
    }
    if entry.len() > 4 && entry[0] == 't' && entry[1] == 'y' && entry[2] == 'p' && entry[3] == 'e'
        && is_white_space(entry[4]) {
        assert(entry@.take(4) =~= "type"@);
        text_trim(slice_subrange(entry, 4, entry.len()))
    } else {
        proof {
            if marked_type(entry@) {
                assert(entry@.take(4)[0] == entry@[0] && entry@.take(4)[1] == entry@[1]);
                assert(entry@.take(4)[2] == entry@[2] && entry@.take(4)[3] == entry@[3]);
            }
        }
        entry
    }
}

fn read_local_name(entry: &[char]) -> (name: String)
    ensures
        name@ == local_name(entry@),
{
    match text_second(entry, chars_of(" as ").as_slice()) {
        Some(renamed) => text_of(text_trim(renamed)),
        None => text_of(text_first_word(drop_mark(entry))),
    }
}

fn read_clause_name(entry: &[char]) -> (name: String)
    ensures
        name@ == clause_name(entry@),
{
    match text_second(entry, chars_of("* as ").as_slice()) {
        Some(rest) => text_of(text_first_word(rest)),
        None => text_of(drop_mark(entry)),
    }
}

/// The clause of the statement without `from`, if it ends with that word.
fn read_from(clause: &[char]) -> (names: Option<&[char]>)
    ensures
        match names {
            Some(list) => ends_with_from(clause@) && list@ == clause@.take(clause@.len() - 4),
            None => !ends_with_from(clause@),
        },
{
    proof {
        reveal_strlit("from");
    }
    if clause.len() < 4 {
        return None;
    }
    let end: usize = clause.len() - 4;
    let ghost word = clause@.skip(end as int);
    if clause[end] == 'f' && clause[end + 1] == 'r' && clause[end + 2] == 'o' && clause[end + 3]
        == 'm' && (end == 0 || is_white_space(clause[end - 1])) {
        assert(word =~= "from"@);
        Some(slice_subrange(clause, 0, end))
    } else {
        proof {
            if ends_with_from(clause@) {
                assert(word[0] == clause@[end as int] && word[1] == clause@[end + 1]);
                assert(word[2] == clause@[end + 2] && word[3] == clause@[end + 3]);
            }
        }
        None
    }
}

/// The names that an import statement brings in, by its head.
pub fn read_names(head: &[char]) -> (names: Vec<String>)
    ensures
        report::texts(names@) == names_in(head@),
{
    let open: [char; 1] = ['{'];
    let close: [char; 1] = ['}'];
    assert(open@ =~= seq!['{']);
    assert(close@ =~= seq!['}']);
    let mut names: Vec<String> = Vec::new();
    assert(report::texts(names@) =~= Seq::empty());
    if let Some(named) = text_second(head, &open) {
        let entries = text_listed(text_before(named, &close));
        let ghost list = text::listed(text::before(named@, seq!['}']));
        let mut i: usize = 0;
        while i < entries.len()
            invariant
                i <= entries@.len(),
                list == entries@.map_values(|e: &[char]| e@),
                names_in(head@) == list.map_values(|entry: Seq<char>| local_name(entry)),
                report::texts(names@) == names_in(head@).take(i as int),
            decreases entries@.len() - i,
        {
            assert(list[i as int] == entries@[i as int]@);
            let ghost earlier = report::texts(names@);
            let name = read_local_name(entries[i]);
            names.push(name);
            assert(report::texts(names@) =~= earlier.push(name@));
            assert(names_in(head@)[i as int] == name@);
            i += 1;
            assert(report::texts(names@) =~= names_in(head@).take(i as int));
        }
        assert(report::texts(names@) =~= names_in(head@));
        return names;
    }
    let nothing: [char; 0] = [];
    assert(nothing@ =~= Seq::empty());
    let clause = match text_after(head, chars_of("import").as_slice()) {
        Some(rest) => text_trim_end(rest, CharSet::Blank),
        None => &nothing,
    };
    if let Some(list) = read_from(clause) {
        let entries = text_listed(list);
        let ghost listed = text::listed(list@);
        let mut i: usize = 0;
        while i < entries.len()
            invariant
                i <= entries@.len(),
                listed == entries@.map_values(|e: &[char]| e@),
                names_in(head@) == listed.map_values(|entry: Seq<char>| clause_name(entry)),
                report::texts(names@) == names_in(head@).take(i as int),
            decreases entries@.len() - i,
        {
            assert(listed[i as int] == entries@[i as int]@);
            let ghost earlier = report::texts(names@);
            let name = read_clause_name(entries[i]);
            names.push(name);
            assert(report::texts(names@) =~= earlier.push(name@));
            assert(names_in(head@)[i as int] == name@);
            i += 1;
            assert(report::texts(names@) =~= names_in(head@).take(i as int));
        }
        assert(report::texts(names@) =~= names_in(head@));
    } else if has_text(clause, chars_of("* as ").as_slice()) {
        let name = read_clause_name(clause);
        names.push(name);
        assert(report::texts(names@) =~= seq![name@]);
    } else {
        names.push(String::new());
        assert(report::texts(names@) =~= seq![Seq::<char>::empty()]);
    }
    names
}

fn import_each(names: Vec<String>, module: &[char]) -> (imports: Vec<Import>)
    ensures
        report::import_views(imports@) == imports_named(report::texts(names@), module@),
{
    let ghost wanted = imports_named(report::texts(names@), module@);
    let mut imports: Vec<Import> = Vec::new();
    let mut i: usize = 0;
    while i < names.len()
        invariant
            i <= names@.len(),
            wanted == imports_named(report::texts(names@), module@),
            report::import_views(imports@) == wanted.take(i as int),
        decreases names@.len() - i,
    {
        let ghost earlier = report::import_views(imports@);
        let import = Import { source_entity: names[i].clone(), target_entity: text_of(module) };
        imports.push(import);
        assert(report::import_views(imports@) =~= earlier.push(import@));
        assert(report::texts(names@)[i as int] == names@[i as int]@);
        assert(wanted[i as int] == import@);
        i += 1;
        assert(report::import_views(imports@) =~= wanted.take(i as int));
    }
    assert(report::import_views(imports@) =~= wanted);
    imports
}

fn import_one(name: &[char], module: &[char]) -> (imports: Vec<Import>)
    ensures
        report::import_views(imports@) == imports_named(seq![name@], module@),
{
    let mut names: Vec<String> = Vec::new();
    names.push(text_of(name));
    assert(report::texts(names@) =~= seq![name@]);
    import_each(names, module)
}

/// The imports that the import at `whole` brings in from the module at `n`.
fn read_whole(tree: &SyntaxTree, whole: usize, n: usize, module: &[char], source: &[u8]) -> (imports:
    Option<Vec<Import>>)
    requires
        whole < tree@.len(),
        n < tree@.len(),
    ensures
        match (imports, whole_names(tree@, whole as int, n as int, module@, source@)) {
            (Some(list), Some(names)) => report::import_views(list@) == imports_named(
                names,
                module@,
            ),
            (None, None) => true,
            _ => false,
        },
{
    let node = tree.node(whole);
    let end: usize = tree.node(n).start_byte;
    let inside = node.start_byte <= end && end <= node.end_byte;
    let span = SyntaxNode {
        kind: node.kind,
        named: node.named,
        start_byte: node.start_byte,
        end_byte: if inside {
            end
        } else {
            node.end_byte
        },
        start_row: node.start_row,
        end_row: node.end_row,
        depth: node.depth,
    };
    match span.text(source) {
        Some(head) => {
            if same_text(node.kind, "import") {
                Some(import_one(text_after_last(module, '.'), module))
            } else if same_text(node.kind, "import_spec") {
                Some(import_one(text_after_last(module, '/'), module))
            } else {
                Some(import_each(read_names(chars_of(head).as_slice()), module))
            }
        },
        None => None,
    }
}

/// The imports that a match shows.
pub fn read_imports(
    tree: &SyntaxTree,
    found: &QueryMatch,
    source: &[u8],
    with_calls: bool,
) -> (imports: Vec<Import>)
    requires
        query::captures_within(found@, tree@.len()),
    ensures
        report::import_views(imports@) == match_imports(tree@, found@, source@, with_calls),
{
    let none: Vec<Import> = Vec::new();
    assert(report::import_views(none@) =~= Seq::empty());
    let n: usize = match found.last_node(Role::Source) {
        Some(node) => node,
        None => return none,
    };
    let written = tree.spelled(n, source);
    let module = text_trim_set(
        text_trim_set(written.as_slice(), CharSet::Only('\'')),
        CharSet::Only('"'),
    );
    if let Some(whole) = found.first_node(Role::Import) {
        if let Some(imports) = read_whole(tree, whole, n, module, source) {
            return imports;
        }
    }
    if let Some(target) = found.last_node(Role::Target) {
        let path = tree.spelled(target, source);
        return import_one(text_after_last(path.as_slice(), '.'), path.as_slice());
    }
    if with_calls {
        return import_one(text_after_last(module, '/'), module);
    }
    none
}

/// The imports that the matches show, in their order.
pub fn collect_imports(
    tree: &SyntaxTree,
    matches: &Vec<QueryMatch>,
    source: &[u8],
    with_calls: bool,
) -> (imports: Vec<Import>)
    requires
        query::matches_within(query::match_views(matches@), tree@.len()),
    ensures
        report::import_views(imports@) == imports_of(
            tree@,
            query::match_views(matches@),
            source@,
            with_calls,
        ),
{
    let ghost all = query::match_views(matches@);
    let mut imports: Vec<Import> = Vec::new();
    let mut i: usize = 0;
    assert(report::import_views(imports@) =~= Seq::empty());
    while i < matches.len()
        invariant
            i <= matches@.len(),
            all == query::match_views(matches@),
            query::matches_within(all, tree@.len()),
            report::import_views(imports@) == imports_of(
                tree@,
                all.take(i as int),
                source@,
                with_calls,
            ),
        decreases matches@.len() - i,
    {
        assert(all[i as int] == matches@[i as int]@);
        assert(all.take(i + 1).drop_last() =~= all.take(i as int));
        let ghost earlier = report::import_views(imports@);
        let mut more = read_imports(tree, &matches[i], source, with_calls);
        let ghost added = report::import_views(more@);
        imports.append(&mut more);
        assert(report::import_views(imports@) =~= earlier + added);
        i += 1;
    }
    assert(all.take(i as int) =~= all);
    imports
}

/// A module written in quotes of either sort is named without them.
pub proof fn law_quotes_are_dropped(module: Seq<char>)
    requires
        !module.contains('\''),
        !module.contains('"'),
    ensures
        module_name(seq!['\''] + module + seq!['\'']) == module,
        module_name(seq!['"'] + module + seq!['"']) == module,
        module_name(module) == module,
{
    lemma_unquoted(module, '\'');
    lemma_unquoted(module, '"');
    let double = seq!['"'] + module + seq!['"'];
    assert(double.first() == '"' && double.last() == '"');
    assert(text::trim_set(double, CharSet::Only('\'')) == double);
}

proof fn lemma_unquoted(module: Seq<char>, quote: char)
    requires
        !module.contains(quote),
    ensures
        text::trim_set(module, CharSet::Only(quote)) == module,
        text::trim_set(seq![quote] + module + seq![quote], CharSet::Only(quote)) == module,
{
    let set = CharSet::Only(quote);
    let whole = seq![quote] + module + seq![quote];
    let open = module + seq![quote];
    assert(whole.drop_first() =~= open);
    assert(open.drop_last() =~= module);
    assert(text::trim_start(whole, set) == text::trim_start(open, set));
    if module.len() > 0 {
        assert(module.contains(module.first()));
        assert(module.contains(module.last()));
        assert(open.first() == module.first());
        assert(text::trim_start(open, set) == open);
        assert(text::trim_end(open, set) == text::trim_end(module, set));
    } else {
        assert(open.drop_first() =~= module);
        assert(text::trim_start(open, set) == text::trim_start(module, set));
    }
}

/// The module of an import neither starts nor ends with a double quote.
pub proof fn law_module_is_unquoted(written: Seq<char>)
    ensures
        module_name(written).len() > 0 ==> module_name(written).first() != '"' && module_name(
            written,
        ).last() != '"',
{
    text::lemma_trim(text::trim_set(written, CharSet::Only('\'')), CharSet::Only('"'));
}

/// What a match shows does not depend on the other matches: the imports of two
/// lists of matches are those of the first, followed by those of the second.
pub proof fn law_imports_of_each_match(
    nodes: Seq<NodeShape>,
    first: Seq<Seq<CaptureView>>,
    second: Seq<Seq<CaptureView>>,
    source: Seq<u8>,
    with_calls: bool,
)
    ensures
        imports_of(nodes, first + second, source, with_calls) == imports_of(nodes, first, source, with_calls) + imports_of(
            nodes,
            second,
            source, with_calls,
        ),
    decreases second.len(),
{
    if second.len() == 0 {
        assert(first + second =~= first);
    } else {
        law_imports_of_each_match(nodes, first, second.drop_last(), source, with_calls);
        assert((first + second).drop_last() =~= first + second.drop_last());
        assert((first + second).last() == second.last());
    }
}

/// The names that a statement lists in braces are those that it brings in,
/// whatever stands around the braces.
pub proof fn law_names_in_braces(head: Seq<char>, list: Seq<char>, tail: Seq<char>)
    requires
        !head.contains('{'),
        !list.contains('{'),
        !list.contains('}'),
    ensures
        names_in(head + seq!['{'] + list + seq!['}'] + tail) == text::listed(list).map_values(
            |entry: Seq<char>| local_name(entry),
        ),
{
    let open = seq!['{'];
    let close = seq!['}'];
    let statement = head + open + list + close + tail;
    let rest = list + close + tail;
    assert(statement =~= head + open + rest);
    text::lemma_find_mark(head, '{', rest);
    assert(statement.skip(head.len() as int + 1) =~= rest);
    text::lemma_find(rest, open, 0);
    let named = text::before(rest, open);
    let end = match text::find(rest, open) {
        Some(at) => at,
        None => rest.len() as int,
    };
    if end < rest.len() {
        assert(rest.subrange(end, end + 1)[0] == rest[end]);
        if end < list.len() {
            assert(list.contains(list[end]));
        }
    }
    assert(named =~= list + close + rest.subrange(list.len() as int + 1, end));
    text::lemma_find_mark(list, '}', rest.subrange(list.len() as int + 1, end));
    assert(named.take(list.len() as int) =~= list);
}

/// What is left of a text when the white space behind it is trimmed.
proof fn lemma_trim_blank(s: Seq<char>, blank: Seq<char>)
    requires
        s.len() > 0,
        !text::white_space(s.last()),
        forall|i: int| 0 <= i < blank.len() ==> text::white_space(#[trigger] blank[i]),
    ensures
        text::trim_end(s + blank, CharSet::Blank) == s,
    decreases blank.len(),
{
    let whole = s + blank;
    if blank.len() == 0 {
        assert(whole =~= s);
    } else {
        assert(whole.last() == blank[blank.len() - 1]);
        assert(whole.drop_last() =~= s + blank.drop_last());
        assert forall|i: int| 0 <= i < blank.drop_last().len() implies text::white_space(
            #[trigger] blank.drop_last()[i],
        ) by {
            assert(blank.drop_last()[i] == blank[i]);
        }
        lemma_trim_blank(s, blank.drop_last());
    }
}

/// A statement without braces brings in what it lists between `import` and
/// `from`: a default name, a namespace, or both.
pub proof fn law_names_before_from(list: Seq<char>, blank: Seq<char>)
    requires
        list.len() > 0,
        text::white_space(list.last()),
        !list.contains('{'),
        forall|i: int| 0 <= i < blank.len() ==> text::white_space(#[trigger] blank[i]),
    ensures
        names_in("import"@ + list + "from"@ + blank) == text::listed(list).map_values(
            |entry: Seq<char>| clause_name(entry),
        ),
{
    reveal_strlit("import");
    reveal_strlit("from");
    let head = "import"@ + list + "from"@ + blank;
    let clause = list + "from"@;
    assert(text::second_piece(head, seq!['{']) is None) by {
        text::lemma_contains_mark(head, '{');
        if head.contains('{') {
            let at = choose|at: int| 0 <= at < head.len() && head[at] == '{';
            let end = 6 + list.len();
            if 6 <= at < end {
                assert(list.contains(list[at - 6]));
            } else if at >= end + 4 {
                assert(head[at] == blank[at - end - 4]);
            }
        }
    }
    assert(head.subrange(0, 6) =~= "import"@);
    assert(text::find(head, "import"@) == Some(0int));
    assert(head.skip(6) =~= clause + blank);
    lemma_trim_blank(clause, blank);
    assert(clause.skip(clause.len() - 4) =~= "from"@);
    assert(clause.take(clause.len() - 4) =~= list);
}

/// The mark of a type is dropped.
proof fn lemma_unmarked(name: Seq<char>)
    requires
        name.len() > 0,
        forall|i: int| 0 <= i < name.len() ==> !text::white_space(#[trigger] name[i]),
    ensures
        unmarked(name) == name,
        unmarked("type "@ + name) == name,
{
    reveal_strlit("type ");
    reveal_strlit("type");
    let typed = "type "@ + name;
    let rest = typed.skip(4);
    assert(typed.take(4) =~= "type"@);
    assert(rest.drop_first() =~= name);
    assert(rest.first() == ' ');
    assert(text::trim_start(rest, CharSet::Blank) == text::trim_start(name, CharSet::Blank));
    assert(text::trim(rest) == name);
}

/// Outside braces, a name goes by itself, also where it is marked as a type, and
/// a namespace by its own name.
pub proof fn law_names_of_entries(name: Seq<char>)
    requires
        name.len() > 0,
        forall|i: int| 0 <= i < name.len() ==> !text::white_space(#[trigger] name[i]),
    ensures
        clause_name(name) == name,
        clause_name("type "@ + name) == name,
        clause_name("* as "@ + name) == name,
{
    reveal_strlit("type ");
    reveal_strlit("* as ");
    let star = "* as "@;
    let typed = "type "@ + name;
    let spaced = star + name;
    lemma_unmarked(name);
    text::lemma_find(name, star, 0);
    if let Some(at) = text::find(name, star) {
        assert(name.subrange(at, at + 5)[1] == name[at + 1]);
    }
    text::lemma_find(typed, star, 0);
    if let Some(at) = text::find(typed, star) {
        assert(typed.subrange(at, at + 5)[0] == typed[at]);
        assert(typed.subrange(at, at + 5)[1] == typed[at + 1]);
        if at >= 5 {
            assert(typed[at + 1] == name[at - 4]);
        }
    }
    assert(spaced.subrange(0, 5) =~= star);
    assert(text::find(spaced, star) == Some(0int));
    assert(spaced.skip(5) =~= name);
    assert(name =~= Seq::<char>::empty() + name + Seq::empty());
    text::lemma_first_word(Seq::empty(), name, Seq::empty());
}

/// In braces, a name goes by itself, also where it is marked as a type.
pub proof fn law_names_in_lists(name: Seq<char>)
    requires
        name.len() > 0,
        forall|i: int| 0 <= i < name.len() ==> !text::white_space(#[trigger] name[i]),
    ensures
        local_name(name) == name,
        local_name("type "@ + name) == name,
{
    reveal_strlit("type ");
    reveal_strlit(" as ");
    let renamed = " as "@;
    let typed = "type "@ + name;
    lemma_unmarked(name);
    text::lemma_find(name, renamed, 0);
    if let Some(at) = text::find(name, renamed) {
        assert(name.subrange(at, at + 4)[0] == name[at]);
    }
    text::lemma_find(typed, renamed, 0);
    if let Some(at) = text::find(typed, renamed) {
        assert(typed.subrange(at, at + 4)[0] == typed[at]);
        assert(typed.subrange(at, at + 4)[3] == typed[at + 3]);
        if at >= 5 {
            assert(typed[at] == name[at - 5]);
        } else {
            assert(typed[at + 3] == name[at - 2]);
        }
    }
    assert(name =~= Seq::<char>::empty() + name + Seq::empty());
    text::lemma_first_word(Seq::empty(), name, Seq::empty());
}

/// An import of Kotlin or Go brings in the last segment of its path.
pub proof fn law_last_segment_is_imported(
    nodes: Seq<NodeShape>,
    whole: int,
    n: int,
    source: Seq<u8>,
    head: Seq<char>,
    name: Seq<char>,
)
    requires
        path_import(nodes[whole].kind),
        head_text(nodes, whole, n, source) is Some,
        !name.contains(separator(nodes[whole].kind)),
    ensures
        whole_names(nodes, whole, n, head + seq![separator(nodes[whole].kind)] + name, source)
            == Some(seq![name]),
{
    text::lemma_after_last(head, name, separator(nodes[whole].kind));
}

/// An entry that renames what it imports goes by the new name.
pub proof fn law_renamed_entry_goes_by_its_new_name(old_name: Seq<char>, new_name: Seq<char>)
    requires
        forall|i: int| 0 <= i < old_name.len() ==> #[trigger] old_name[i] != ' ',
        new_name.len() > 0,
        forall|i: int| 0 <= i < new_name.len() ==> !text::white_space(#[trigger] new_name[i]),
    ensures
        local_name(old_name + " as "@ + new_name) == new_name,
{
    reveal_strlit(" as ");
    let word = " as "@;
    let entry = old_name + word + new_name;
    let at = old_name.len() as int;
    assert(entry.subrange(at, at + 4) =~= word);
    assert(text::occurs_at(entry, word, at));
    assert forall|i: int| 0 <= i < at implies !text::occurs_at(entry, word, i) by {
        if text::occurs_at(entry, word, i) {
            assert(entry.subrange(i, i + 4)[0] == old_name[i]);
        }
    }
    text::lemma_find(entry, word, 0);
    assert(entry.skip(at + 4) =~= new_name);
    text::lemma_find(new_name, word, 0);
    if let Some(k) = text::find(new_name, word) {
        assert(new_name.subrange(k, k + 4)[0] == new_name[k]);
    }
    assert(text::trim(new_name) == new_name);
}

/// A statement that imports a module alone brings in one empty name.
pub proof fn law_import_for_effects_has_no_name(blank: Seq<char>)
    requires
        forall|i: int| 0 <= i < blank.len() ==> text::white_space(#[trigger] blank[i]),
    ensures
        names_in("import"@ + blank) == seq![Seq::<char>::empty()],
{
    reveal_strlit("import");
    reveal_strlit("* as ");
    let head = "import"@ + blank;
    text::lemma_contains_mark(head, '{');
    if head.contains('{') {
        let at = choose|at: int| 0 <= at < head.len() && head[at] == '{';
        if at >= 6 {
            assert(head[at] == blank[at - 6]);
        }
    }
    assert(head.subrange(0, 6) =~= "import"@);
    assert(text::find(head, "import"@) == Some(0int));
    assert(head.skip(6) =~= blank);
    text::lemma_trim_end(blank, CharSet::Blank);
    let clause = text::trim_end(blank, CharSet::Blank);
    if clause.len() > 0 {
        assert(clause.last() == blank[clause.len() - 1]);
    }
    text::lemma_find(clause, "* as "@, 0);
}

/// An import statement of a tree brings in the names that its whole text up to
/// the module lists, each of them from the module.
pub proof fn law_statement_is_read_up_to_the_module(
    nodes: Seq<NodeShape>,
    captures: Seq<CaptureView>,
    before: Seq<u8>,
    head: Seq<char>,
    rest: Seq<u8>,
    with_calls: bool,
)
    requires
        query::last_in_role(captures, Role::Source) is Some,
        query::first_in_role(captures, Role::Import) is Some,
        ({
            let n = query::last_in_role(captures, Role::Source)->0;
            let w = query::first_in_role(captures, Role::Import)->0;
            &&& nodes[w].kind != "import"@
            &&& nodes[w].kind != "import_spec"@
            &&& nodes[w].start_byte == before.len()
            &&& nodes[n].start_byte == before.len() + vstd::utf8::encode_utf8(head).len()
            &&& nodes[n].start_byte <= nodes[w].end_byte
        }),
    ensures
        ({
            let source = before + vstd::utf8::encode_utf8(head) + rest;
            let n = query::last_in_role(captures, Role::Source)->0;
            let imports = match_imports(nodes, captures, source, with_calls);
            &&& imports.len() == names_in(head).len()
            &&& forall|i: int|
                0 <= i < imports.len() ==> (#[trigger] imports[i]).source_entity == names_in(
                    head,
                )[i] && imports[i].target_entity == module_name(
                    tree::text_or_empty(nodes[n], source),
                )
        }),
{
    let n = query::last_in_role(captures, Role::Source)->0;
    let w = query::first_in_role(captures, Role::Import)->0;
    tree::law_text_of_a_span(
        NodeShape { end_byte: nodes[n].start_byte, ..nodes[w] },
        before,
        head,
        rest,
    );
}

/// An import statement of a tree that lists names in braces, on one line or on
/// many, shows one import for each entry of the list, from the module.
pub proof fn law_each_name_in_braces_is_imported(
    nodes: Seq<NodeShape>,
    captures: Seq<CaptureView>,
    before: Seq<u8>,
    head: Seq<char>,
    list: Seq<char>,
    tail: Seq<char>,
    rest: Seq<u8>,
    with_calls: bool,
)
    requires
        !head.contains('{'),
        !list.contains('{'),
        !list.contains('}'),
        query::last_in_role(captures, Role::Source) is Some,
        query::first_in_role(captures, Role::Import) is Some,
        ({
            let whole = head + seq!['{'] + list + seq!['}'] + tail;
            let n = query::last_in_role(captures, Role::Source)->0;
            let w = query::first_in_role(captures, Role::Import)->0;
            &&& nodes[w].kind != "import"@
            &&& nodes[w].kind != "import_spec"@
            &&& nodes[w].start_byte == before.len()
            &&& nodes[n].start_byte == before.len() + vstd::utf8::encode_utf8(whole).len()
            &&& nodes[n].start_byte <= nodes[w].end_byte
        }),
    ensures
        ({
            let whole = head + seq!['{'] + list + seq!['}'] + tail;
            let source = before + vstd::utf8::encode_utf8(whole) + rest;
            let n = query::last_in_role(captures, Role::Source)->0;
            let imports = match_imports(nodes, captures, source, with_calls);
            &&& imports.len() == text::listed(list).len()
            &&& forall|i: int|
                0 <= i < imports.len() ==> (#[trigger] imports[i]).source_entity == local_name(
                    text::listed(list)[i],
                ) && imports[i].target_entity == module_name(tree::text_or_empty(nodes[n], source))
        }),
{
    let whole = head + seq!['{'] + list + seq!['}'] + tail;
    law_names_in_braces(head, list, tail);
    law_statement_is_read_up_to_the_module(nodes, captures, before, whole, rest, with_calls);
}

/// An import of Kotlin shows the part of its path after the last dot, one of Go
/// the part after the last slash, from the path.
pub proof fn law_path_shows_its_last_segment(
    nodes: Seq<NodeShape>,
    captures: Seq<CaptureView>,
    source: Seq<u8>,
    head: Seq<char>,
    name: Seq<char>,
    with_calls: bool,
)
    requires
        query::last_in_role(captures, Role::Source) is Some,
        query::first_in_role(captures, Role::Import) is Some,
        head_text(
            nodes,
            query::first_in_role(captures, Role::Import)->0,
            query::last_in_role(captures, Role::Source)->0,
            source,
        ) is Some,
        ({
            let n = query::last_in_role(captures, Role::Source)->0;
            let w = query::first_in_role(captures, Role::Import)->0;
            let module = module_name(tree::text_or_empty(nodes[n], source));
            ||| nodes[w].kind == "import"@ && module == head + seq!['.'] + name && !name.contains(
                '.',
            )
            ||| nodes[w].kind == "import_spec"@ && module == head + seq!['/'] + name
                && !name.contains('/')
            ||| (nodes[w].kind == "import"@ || nodes[w].kind == "import_spec"@) && module == name
                && !name.contains('.') && !name.contains('/')
        }),
    ensures
        match_imports(nodes, captures, source, with_calls) == seq![
            ImportView {
                source_entity: name,
                target_entity: module_name(
                    tree::text_or_empty(
                        nodes[query::last_in_role(captures, Role::Source)->0],
                        source,
                    ),
                ),
            },
        ],
{
    reveal_strlit("import");
    reveal_strlit("import_spec");
    assert("import"@.len() == 6 && "import_spec"@.len() == 11);
    let n = query::last_in_role(captures, Role::Source)->0;
    let module = module_name(tree::text_or_empty(nodes[n], source));
    if !name.contains('.') {
        text::lemma_after_last(head, name, '.');
    }
    if !name.contains('/') {
        text::lemma_after_last(head, name, '/');
    }
    text::law_after_the_last_mark(name, '.');
    text::law_after_the_last_mark(name, '/');
    if module == name {
        lemma_unmarked_path(name, '.');
        lemma_unmarked_path(name, '/');
    }
    assert(match_imports(nodes, captures, source, with_calls) =~= seq![
        ImportView { source_entity: name, target_entity: module },
    ]);
}

proof fn lemma_unmarked_path(name: Seq<char>, mark: char)
    ensures
        !name.contains(mark) ==> text::after_last(name, mark) == name,
{
    text::law_after_the_last_mark(name, mark);
    let tail = text::after_last(name, mark);
    if tail.len() < name.len() {
        assert(name.contains(name[name.len() - tail.len() - 1]));
    } else {
        assert(name.skip(0) =~= name);
    }
}

/// Without the text of the import as a whole, a target shows the part after its
/// last dot, from the target; a module alone shows the part after its last slash, where calls are
/// looked for, and else nothing. Without a module there is no import.
pub proof fn law_imports_without_a_statement(
    nodes: Seq<NodeShape>,
    captures: Seq<CaptureView>,
    source: Seq<u8>,
)
    requires
        query::first_in_role(captures, Role::Import) matches Some(w) ==> head_text(
            nodes,
            w,
            query::last_in_role(captures, Role::Source)->0,
            source,
        ) is None,
    ensures
        match (
            query::last_in_role(captures, Role::Source),
            query::last_in_role(captures, Role::Target),
        ) {
            (Some(_), Some(t)) => {
                let path = tree::text_or_empty(nodes[t], source);
                forall|with_calls: bool| #[trigger]
                    match_imports(nodes, captures, source, with_calls) == seq![
                        ImportView {
                            source_entity: text::after_last(path, '.'),
                            target_entity: path,
                        },
                    ]
            },
            (Some(n), None) => {
                let module = module_name(tree::text_or_empty(nodes[n], source));
                &&& match_imports(nodes, captures, source, true) == seq![
                    ImportView {
                        source_entity: text::after_last(module, '/'),
                        target_entity: module,
                    },
                ]
                &&& match_imports(nodes, captures, source, false).len() == 0
            },
            (None, _) => forall|with_calls: bool|
                (#[trigger] match_imports(nodes, captures, source, with_calls)).len() == 0,
        },
{
    match (
        query::last_in_role(captures, Role::Source),
        query::last_in_role(captures, Role::Target),
    ) {
        (Some(_), Some(t)) => {
            let path = tree::text_or_empty(nodes[t], source);
            assert forall|with_calls: bool| #[trigger]
                match_imports(nodes, captures, source, with_calls) == seq![
                    ImportView { source_entity: text::after_last(path, '.'), target_entity: path },
                ] by {
                assert(match_imports(nodes, captures, source, with_calls) =~= seq![
                    ImportView { source_entity: text::after_last(path, '.'), target_entity: path },
                ]);
            }
        },
        (Some(n), None) => {
            let module = module_name(tree::text_or_empty(nodes[n], source));
            assert(match_imports(nodes, captures, source, true) =~= seq![
                ImportView { source_entity: text::after_last(module, '/'), target_entity: module },
            ]);
        },
        (None, _) => {},
    }
}

/// One match shows its imports.
pub proof fn law_imports_of_one_match(
    nodes: Seq<NodeShape>,
    captures: Seq<CaptureView>,
    source: Seq<u8>,
    with_calls: bool,
)
    ensures
        imports_of(nodes, seq![captures], source, with_calls) == match_imports(
            nodes,
            captures,
            source,
            with_calls,
        ),
{
    reveal_with_fuel(imports_of, 2);
    assert(seq![captures].drop_last() =~= Seq::empty());
    assert(seq![captures].last() == captures);
    assert(Seq::<ImportView>::empty() + match_imports(nodes, captures, source, with_calls)
        =~= match_imports(nodes, captures, source, with_calls));
}

/// Outside braces, what is neither a namespace nor marked as a type goes by itself;
/// the mark of a type is dropped with the white space behind it.
pub proof fn law_entries_are_kept(entry: Seq<char>, blank: Seq<char>, name: Seq<char>)
    requires
        forall|i: int| !#[trigger] text::occurs_at(entry, "* as "@, i),
        !(entry.len() > 4 && entry.take(4) == "type"@ && text::white_space(entry[4])),
        blank.len() > 0,
        forall|i: int| 0 <= i < blank.len() ==> text::white_space(#[trigger] blank[i]),
        name.len() > 0,
        !text::white_space(name.first()),
        !text::white_space(name.last()),
        forall|i: int| !#[trigger] text::occurs_at("type"@ + blank + name, "* as "@, i),
    ensures
        clause_name(entry) == entry,
        clause_name("type"@ + blank + name) == name,
{
    reveal_strlit("type");
    let typed = "type"@ + blank + name;
    text::lemma_find(entry, "* as "@, 0);
    text::lemma_find(typed, "* as "@, 0);
    assert(typed.take(4) =~= "type"@);
    assert(typed[4] == blank[0]);
    assert(typed.skip(4) =~= blank + name + Seq::empty());
    text::lemma_trim_around(blank, name, Seq::empty());
}

/// In braces, an entry that renames nothing goes by its first word, behind the mark
/// of a type if it has one.
pub proof fn law_entry_goes_by_its_first_word(blank: Seq<char>, name: Seq<char>, rest: Seq<char>)
    requires
        name.len() > 0,
        forall|i: int| 0 <= i < name.len() ==> !text::white_space(#[trigger] name[i]),
        rest.len() > 0 ==> text::white_space(rest.first()) && !text::white_space(rest.last()),
        blank.len() > 0,
        forall|i: int| 0 <= i < blank.len() ==> text::white_space(#[trigger] blank[i]),
        forall|i: int| !#[trigger] text::occurs_at(name + rest, " as "@, i),
        forall|i: int| !#[trigger] text::occurs_at("type"@ + blank + name + rest, " as "@, i),
    ensures
        name != "type"@ ==> local_name(name + rest) == name,
        local_name("type"@ + blank + name + rest) == name,
{
    reveal_strlit("type");
    let entry = name + rest;
    let typed = "type"@ + blank + name + rest;
    text::lemma_find(entry, " as "@, 0);
    text::lemma_find(typed, " as "@, 0);
    assert(entry =~= Seq::<char>::empty() + name + rest);
    text::lemma_first_word(Seq::empty(), name, rest);
    if marked_type(entry) {
        let start = entry.take(4);
        if name.len() > 4 {
            assert(entry[4] == name[4]);
        } else {
            assert(start[0] == entry[0] && start[1] == entry[1] && start[2] == entry[2] && start[3]
                == entry[3]);
            if name.len() < 4 {
                assert(entry[name.len() as int] == rest.first());
            } else {
                assert(start =~= name);
            }
        }
    }
    assert(typed.take(4) =~= "type"@);
    assert(typed[4] == blank[0]);
    assert(typed.skip(4) =~= blank + entry + Seq::empty());
    assert(entry.first() == name[0]);
    assert(!text::white_space(entry.last())) by {
        if rest.len() > 0 {
            assert(entry.last() == rest.last());
        } else {
            assert(entry.last() == name[name.len() - 1]);
        }
    }
    text::lemma_trim_around(blank, entry, Seq::empty());
}

/// A text that is no import statement, such as that of a declaration of use, lists
/// no names, and stands for one empty name.
pub proof fn law_other_statements_have_no_name(head: Seq<char>)
    requires
        !head.contains('{'),
        forall|i: int| !#[trigger] text::occurs_at(head, "import"@, i),
    ensures
        names_in(head) == seq![Seq::<char>::empty()],
{
    reveal_strlit("* as ");
    text::lemma_contains_mark(head, '{');
    text::lemma_find(head, "import"@, 0);
    text::lemma_find(Seq::empty(), "* as "@, 0);
}

/// All quotes around a module are dropped, single ones outside double ones.
pub proof fn law_all_quotes_are_dropped(
    outer: Seq<char>,
    inner: Seq<char>,
    module: Seq<char>,
    inner_end: Seq<char>,
    outer_end: Seq<char>,
)
    requires
        forall|i: int| 0 <= i < outer.len() ==> #[trigger] outer[i] == '\'',
        forall|i: int| 0 <= i < outer_end.len() ==> #[trigger] outer_end[i] == '\'',
        forall|i: int| 0 <= i < inner.len() ==> #[trigger] inner[i] == '"',
        forall|i: int| 0 <= i < inner_end.len() ==> #[trigger] inner_end[i] == '"',
        module.len() > 0,
        module.first() != '"' && module.last() != '"',
        module.first() != '\'' && module.last() != '\'',
    ensures
        module_name(outer + (inner + module + inner_end) + outer_end) == module,
{
    let quoted = inner + module + inner_end;
    assert(quoted.first() == if inner.len() > 0 {
        inner[0]
    } else {
        module.first()
    });
    assert(quoted.last() == if inner_end.len() > 0 {
        inner_end[inner_end.len() - 1]
    } else {
        module.last()
    });
    text::lemma_trim_set_around(outer, quoted, outer_end, CharSet::Only('\''));
    text::lemma_trim_set_around(inner, module, inner_end, CharSet::Only('"'));
}

/// Where the module stands outside the import, all of the text of the import is
/// read.
pub proof fn law_import_is_read_whole(
    nodes: Seq<NodeShape>,
    whole: int,
    module: int,
    source: Seq<u8>,
)
    requires
        nodes[module].start_byte < nodes[whole].start_byte || nodes[module].start_byte
            > nodes[whole].end_byte,
    ensures
        head_text(nodes, whole, module, source) == tree::node_text(nodes[whole], source),
{
}

/// A star that is put between texts without one is first found there.
proof fn lemma_star(before: Seq<char>, rest: Seq<char>)
    requires
        !before.contains('*'),
        !rest.contains('*'),
    ensures
        text::find(before + "* as "@ + rest, "* as "@) == Some(before.len() as int),
        !text::contains(rest, "* as "@),
{
    reveal_strlit("* as ");
    let star = "* as "@;
    let whole = before + star + rest;
    let at = before.len() as int;
    assert(whole.subrange(at, at + 5) =~= star);
    assert(text::occurs_at(whole, star, at));
    assert forall|i: int| 0 <= i < at implies !text::occurs_at(whole, star, i) by {
        if text::occurs_at(whole, star, i) {
            assert(whole.subrange(i, i + 5)[0] == before[i]);
            assert(before.contains(before[i]));
        }
    }
    text::lemma_find(whole, star, 0);
    text::lemma_find(rest, star, 0);
    if let Some(k) = text::find(rest, star) {
        assert(rest.subrange(k, k + 5)[0] == rest[k]);
        assert(rest.contains(rest[k]));
    }
}

/// A namespace goes by the first word behind `* as `, whatever comes before and
/// behind it in its entry.
pub proof fn law_namespace_goes_by_its_first_word(
    before: Seq<char>,
    blank: Seq<char>,
    name: Seq<char>,
    rest: Seq<char>,
)
    requires
        !before.contains('*'),
        forall|i: int| 0 <= i < blank.len() ==> text::white_space(#[trigger] blank[i]),
        name.len() > 0,
        forall|i: int| 0 <= i < name.len() ==> !text::white_space(#[trigger] name[i]),
        rest.len() > 0 ==> text::white_space(rest.first()),
        !name.contains('*'),
        !rest.contains('*'),
    ensures
        clause_name(before + "* as "@ + blank + name + rest) == name,
{
    reveal_strlit("* as ");
    let star = "* as "@;
    let tail = blank + name + rest;
    let entry = before + star + blank + name + rest;
    assert(entry =~= before + star + tail);
    assert(!tail.contains('*')) by {
        if tail.contains('*') {
            let at = choose|at: int| 0 <= at < tail.len() && tail[at] == '*';
            if at < blank.len() {
                assert(tail[at] == blank[at]);
            } else if at < blank.len() + name.len() {
                assert(name.contains(name[at - blank.len()]));
            } else {
                assert(rest.contains(rest[at - blank.len() - name.len()]));
            }
        }
    }
    lemma_star(before, tail);
    assert(entry.skip(before.len() as int + 5) =~= tail);
    text::lemma_first_word(blank, name, rest);
}

/// The clause of a statement without braces is what stands behind `import`, up to
/// the white space that it ends with.
proof fn lemma_clause(list: Seq<char>, blank: Seq<char>)
    requires
        list.len() > 0,
        !text::white_space(list.last()),
        !list.contains('{'),
        forall|i: int| 0 <= i < blank.len() ==> text::white_space(#[trigger] blank[i]),
    ensures
        clause_of("import"@ + list + blank) == list,
        text::second_piece("import"@ + list + blank, seq!['{']) is None,
{
    reveal_strlit("import");
    let head = "import"@ + list + blank;
    text::lemma_contains_mark(head, '{');
    if head.contains('{') {
        let at = choose|at: int| 0 <= at < head.len() && head[at] == '{';
        let end = 6 + list.len();
        if 6 <= at < end {
            assert(list.contains(list[at - 6]));
        } else if at >= end {
            assert(head[at] == blank[at - end]);
        }
    }
    assert(head.subrange(0, 6) =~= "import"@);
    assert(text::find(head, "import"@) == Some(0int));
    assert(head.skip(6) =~= list + blank);
    lemma_trim_blank(list, blank);
}

/// `from` counts only as a word of its own: a statement without braces, star and
/// that word at its end brings in one empty name.
pub proof fn law_from_is_a_word_of_its_own(list: Seq<char>, blank: Seq<char>)
    requires
        list.len() > 0,
        !text::white_space(list.last()),
        !list.contains('{'),
        !list.contains('*'),
        forall|i: int| 0 <= i < blank.len() ==> text::white_space(#[trigger] blank[i]),
        list != "from"@,
        list.len() > 4 && list.skip(list.len() - 4) == "from"@ ==> !text::white_space(
            list[list.len() - 5],
        ),
    ensures
        names_in("import"@ + list + blank) == seq![Seq::<char>::empty()],
{
    reveal_strlit("* as ");
    lemma_clause(list, blank);
    assert(list.len() == 4 ==> list.skip(0) =~= list);
    text::lemma_find(list, "* as "@, 0);
    if let Some(k) = text::find(list, "* as "@) {
        assert(list.subrange(k, k + 5)[0] == list[k]);
        assert(list.contains(list[k]));
    }
}

/// A namespace is brought in also where no `from` follows it.
pub proof fn law_namespace_needs_no_from(before: Seq<char>, name: Seq<char>, blank: Seq<char>)
    requires
        !before.contains('{'),
        !before.contains('*'),
        name.len() > 0,
        forall|i: int| 0 <= i < name.len() ==> !text::white_space(#[trigger] name[i]),
        !name.contains('{'),
        !name.contains('*'),
        name != "from"@,
        forall|i: int| 0 <= i < blank.len() ==> text::white_space(#[trigger] blank[i]),
    ensures
        names_in("import"@ + (before + "* as "@ + name) + blank) == seq![name],
{
    reveal_strlit("* as ");
    reveal_strlit("from");
    let list = before + "* as "@ + name;
    let from = before.len() + 5;
    assert(list.last() == name[name.len() - 1]);
    assert(!list.contains('{')) by {
        if list.contains('{') {
            let at = choose|at: int| 0 <= at < list.len() && list[at] == '{';
            if at < before.len() {
                assert(before.contains(before[at]));
            } else if at >= from {
                assert(name.contains(name[at - from]));
            }
        }
    }
    lemma_clause(list, blank);
    lemma_star(before, name);
    let last = list.skip(list.len() - 4);
    if ends_with_from(list) {
        if name.len() < 4 {
            assert(last[3 - name.len()] == list[from - 1]);
        } else if name.len() == 4 {
            assert(last =~= name);
        } else {
            assert(list[list.len() - 5] == name[name.len() - 5]);
        }
    }
    assert(list =~= before + "* as "@ + Seq::empty() + name + Seq::empty());
    law_namespace_goes_by_its_first_word(before, Seq::empty(), name, Seq::empty());
}

/// The names in braces are read up to where another brace opens.
pub proof fn law_names_end_where_a_brace_opens(head: Seq<char>, list: Seq<char>, tail: Seq<char>)
    requires
        !head.contains('{'),
        !list.contains('{'),
    ensures
        names_in(head + seq!['{'] + list + seq!['{'] + tail) == names_in(
            head + seq!['{'] + list,
        ),
{
    text::lemma_contains_mark(head, '{');
    text::lemma_contains_mark(list, '{');
    text::law_second_piece_ends_at_the_next_pattern(head, list, tail, seq!['{']);
}

} // verus!
