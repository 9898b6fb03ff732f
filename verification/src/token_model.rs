//! Token definitions and token classes, read from text and compiled for lookup.

pub mod laws;

use crate::error::ParseError;
use crate::regex;
use crate::regex::TextRegex;
use crate::text;
use vstd::prelude::*;

pub use vstd::hash_map::StringHashMap;
pub use vstd::hash_set::StringHashSet;

verus! {

/// Names of token types with the regular expressions of their tokens, in order of precedence.
pub type TokenDefinition = Vec<(String, String)>;

/// Names of token classes with their tokens. The tokens of a class are a set: how often one is
/// listed makes no difference.
pub type TokenClassList = Vec<(String, Vec<String>)>;

/// The value of a [`TokenDefinition`].
pub type Definitions = Seq<(Seq<char>, Seq<char>)>;

/// The value of a [`TokenClassList`].
pub type Classes = Seq<(Seq<char>, Seq<Seq<char>>)>;

/// What stands between the tags `<tag>` and `</tag>` of a line.
pub open spec fn tag_value(line: Seq<char>, tag: Seq<char>) -> Option<Seq<char>> {
    let opening = "<"@ + tag + ">"@;
    let closing = "</"@ + tag + ">"@;
    match text::find_from(line, opening, 0) {
        None => None,
        Some(at) => {
            let from = at + opening.len();
            match text::find_from(line, closing, from) {
                None => None,
                Some(to) => Some(line.subrange(from, to)),
            }
        },
    }
}

/// The token definitions of lines: a name and a value each; comments, and lines that lack one of
/// the two, are left out.
pub open spec fn definitions_in(lines: Seq<Seq<char>>) -> Definitions
    decreases lines.len(),
{
    if lines.len() == 0 {
        Seq::empty()
    } else {
        let before = definitions_in(lines.drop_last());
        let line = lines.last();
        if "#"@.is_prefix_of(line) {
            before
        } else {
            match (tag_value(line, "NAME"@), tag_value(line, "VALUE"@)) {
                (Some(name), Some(value)) => before.push((name, value)),
                _ => before,
            }
        }
    }
}

/// The tokens that lines list; comments are left out.
pub open spec fn values_in(lines: Seq<Seq<char>>) -> Seq<Seq<char>>
    decreases lines.len(),
{
    if lines.len() == 0 {
        Seq::empty()
    } else {
        let before = values_in(lines.drop_last());
        if "#"@.is_prefix_of(lines.last()) {
            before
        } else {
            before.push(lines.last())
        }
    }
}

/// The lines of a text that hold something, without white space at their ends.
pub open spec fn lines_of(content: Seq<char>) -> Seq<Seq<char>> {
    text::nonblank(text::split_on(content, '\n'))
}

fn extract_tag_value(line: &str, tag: &str) -> (r: Option<String>)
    ensures
        r.deep_view() == tag_value(line@, tag@),
{
    let opening = text::glue3("<", tag, ">");
    let closing = text::glue3("</", tag, ">");
    let chars = text::chars_of(line);
    let open_chars = text::chars_of(opening.as_str());
    let close_chars = text::chars_of(closing.as_str());
    match text::find_sub(&chars, 0, &open_chars) {
        None => None,
        Some(at) => {
            let from = at + open_chars.len();
            match text::find_sub(&chars, from, &close_chars) {
                None => None,
                Some(to) => Some(text::text_of(&chars, from, to)),
            }
        },
    }
}

/// The token definitions in the content of a `.param2` file.
#[must_use]
pub fn parse_token_definitions(content: &str) -> (r: TokenDefinition)
    ensures
        r.deep_view() == definitions_in(lines_of(content@)),
{
    let lines = text::split_nonblank(content, '\n');
    let ghost all = lines.deep_view();
    let mut definitions: TokenDefinition = Vec::new();
    let mut i: usize = 0;
    while i < lines.len()
        invariant
            all == lines.deep_view(),
            i <= lines.len(),
            definitions.deep_view() == definitions_in(all.take(i as int)),
        decreases lines.len() - i,
    {
        let ghost before = definitions.deep_view();
        proof {
            let next = all.take(i + 1);
            assert(next.drop_last() == all.take(i as int));
            assert(next.last() == lines@[i as int]@);
        }
        let line = lines[i].as_str();
        if !text::has_prefix(line, "#") {
            let name = extract_tag_value(line, "NAME");
            let value = extract_tag_value(line, "VALUE");
            match (name, value) {
                (Some(name), Some(value)) => {
                    definitions.push((name, value));
                    assert(definitions.deep_view() == before.push((name@, value@)));
                },
                _ => {},
            }
        }
        i = i + 1;
    }
    assert(all.take(i as int) == all);
    definitions
}

/// The tokens in the content of a `.param` file.
#[must_use]
pub fn parse_class_values(content: &str) -> (r: Vec<String>)
    ensures
        r.deep_view() == values_in(lines_of(content@)),
{
    let lines = text::split_nonblank(content, '\n');
    let ghost all = lines.deep_view();
    let mut values: Vec<String> = Vec::new();
    let mut i: usize = 0;
    while i < lines.len()
        invariant
            all == lines.deep_view(),
            i <= lines.len(),
            values.deep_view() == values_in(all.take(i as int)),
        decreases lines.len() - i,
    {
        let ghost before = values.deep_view();
        proof {
            let next = all.take(i + 1);
            assert(next.drop_last() == all.take(i as int));
            assert(next.last() == lines@[i as int]@);
        }
        if !text::has_prefix(lines[i].as_str(), "#") {
            values.push(lines[i].clone());
            assert(values.deep_view() == before.push(lines@[i as int]@));
        }
        i = i + 1;
    }
    assert(all.take(i as int) == all);
    values
}

/// `s` without the `c`s that it begins with.
pub open spec fn without_leading(s: Seq<char>, c: char) -> Seq<char>
    decreases s.len(),
{
    if s.len() > 0 && s[0] == c {
        without_leading(s.skip(1), c)
    } else {
        s
    }
}

/// `s` without the `c`s that it ends with.
pub open spec fn without_trailing(s: Seq<char>, c: char) -> Seq<char>
    decreases s.len(),
{
    if s.len() > 0 && s.last() == c {
        without_trailing(s.drop_last(), c)
    } else {
        s
    }
}

/// The expression of a token definition, made to cover a whole token.
pub open spec fn anchored_definition(pattern: Seq<char>) -> Seq<char> {
    if "^"@.is_prefix_of(pattern) && "$"@.is_suffix_of(pattern) {
        pattern
    } else {
        "^"@ + without_trailing(without_leading(pattern, '^'), '$') + "$"@
    }
}

/// The names of the classes that hold a token, in the order of the list.
pub open spec fn holders(classes: Classes, token: Seq<char>) -> Seq<Seq<char>>
    decreases classes.len(),
{
    if classes.len() == 0 {
        Seq::empty()
    } else {
        let before = holders(classes.drop_last(), token);
        if classes.last().1.contains(token) {
            before.push(classes.last().0)
        } else {
            before
        }
    }
}

/// The classes of a token, joined by `|`; `None` where no class holds it.
pub open spec fn listed_class(classes: Classes, token: Seq<char>) -> Option<Seq<char>> {
    let names = holders(classes, token);
    if names.len() == 0 {
        None
    } else {
        Some(text::join(names, "|"@))
    }
}

/// The names that definitions give.
pub open spec fn definition_names(definitions: Definitions) -> Set<Seq<char>> {
    Set::new(|name: Seq<char>| exists|i: int|
        0 <= i < definitions.len() && (#[trigger] definitions[i]).0 == name)
}

/// Whether the engine accepts the expression of every definition.
pub open spec fn definitions_compile(definitions: Definitions) -> bool {
    forall|i: int|
        0 <= i < definitions.len() ==> regex::regex_accepts(
            anchored_definition((#[trigger] definitions[i]).1),
        )
}

/// Whether a map tells the classes of every token.
pub open spec fn tells_classes(lookup: Map<Seq<char>, String>, classes: Classes) -> bool {
    forall|token: Seq<char>|
        #![trigger lookup.contains_key(token)]
        #![trigger listed_class(classes, token)]
        if lookup.contains_key(token) {
            listed_class(classes, token) == Some(lookup[token]@)
        } else {
            listed_class(classes, token) is None
        }
}

/// The expression of a token definition, made to cover a whole token.
pub fn anchor_definition(pattern: &str) -> (r: String)
    ensures
        r@ == anchored_definition(pattern@),
{
    if text::has_prefix(pattern, "^") && text::has_suffix(pattern, "$") {
        return pattern.to_string();
    }
    let chars = text::chars_of(pattern);
    let mut from: usize = 0;
    assert(chars@.skip(0) == chars@);
    while from < chars.len() && chars[from] == '^'
        invariant
            chars@ == pattern@,
            from <= chars.len(),
            without_leading(pattern@, '^') == without_leading(chars@.skip(from as int), '^'),
        decreases chars.len() - from,
    {
        assert(chars@.skip(from as int).skip(1) == chars@.skip(from + 1));
        from = from + 1;
    }
    let mut to: usize = chars.len();
    let ghost rest = chars@.skip(from as int);
    proof {
        assert(from < chars.len() ==> rest[0] != '^');
        assert(rest == chars@.subrange(from as int, to as int));
    }
    while from < to && chars[to - 1] == '$'
        invariant
            chars@ == pattern@,
            from <= to <= chars.len(),
            without_trailing(rest, '$') == without_trailing(
                chars@.subrange(from as int, to as int),
                '$',
            ),
        decreases to,
    {
        assert(chars@.subrange(from as int, to as int).drop_last() == chars@.subrange(
            from as int,
            to - 1,
        ));
        to = to - 1;
    }
    let inner = text::text_of(&chars, from, to);
    text::glue3("^", inner.as_str(), "$")
}

/// The names that definitions give.
pub fn names_of(definitions: &TokenDefinition) -> (r: StringHashSet)
    ensures
        r@ == definition_names(definitions.deep_view()),
{
    let ghost all = definitions.deep_view();
    let mut names = StringHashSet::new();
    let mut i: usize = 0;
    assert(names@ == definition_names(all.take(0)));
    while i < definitions.len()
        invariant
            all == definitions.deep_view(),
            i <= definitions.len(),
            names@ == definition_names(all.take(i as int)),
        decreases definitions.len() - i,
    {
        let ghost before = names@;
        let (name, _) = &definitions[i];
        let _ = names.insert(name.clone());
        proof {
            let now = all.take(i as int);
            let next = all.take(i + 1);
            assert(next[i as int].0 == name@);
            assert forall|n: Seq<char>| definition_names(next).contains(n) implies before.insert(
                name@,
            ).contains(n) by {
                let k = choose|k: int| 0 <= k < next.len() && (#[trigger] next[k]).0 == n;
                if k < i {
                    assert(now[k].0 == n);
                }
            }
            assert forall|n: Seq<char>| before.insert(name@).contains(n) implies definition_names(
                next,
            ).contains(n) by {
                if n != name@ {
                    let k = choose|k: int| 0 <= k < now.len() && (#[trigger] now[k]).0 == n;
                    assert(next[k].0 == n);
                }
            }
            assert(names@ =~= definition_names(next));
        }
        i = i + 1;
    }
    assert(all.take(i as int) == all);
    names
}

/// One more name at the end of a joined list.
proof fn lemma_join_push(names: Seq<Seq<char>>, name: Seq<char>)
    ensures
        text::join(names.push(name), "|"@) == if names.len() == 0 {
            name
        } else {
            text::join(names, "|"@) + "|"@ + name
        },
{
    assert(names.push(name).drop_last() == names);
}

/// The classes of a token among those before `done`, and `name` where `listed` holds it.
spec fn partial_holders(
    classes: Classes,
    done: int,
    name: Seq<char>,
    listed: Seq<Seq<char>>,
    token: Seq<char>,
) -> Seq<Seq<char>> {
    if listed.contains(token) {
        holders(classes.take(done), token).push(name)
    } else {
        holders(classes.take(done), token)
    }
}

spec fn tells_partly(
    lookup: Map<Seq<char>, String>,
    classes: Classes,
    done: int,
    name: Seq<char>,
    listed: Seq<Seq<char>>,
) -> bool {
    forall|token: Seq<char>|
        #![trigger lookup.contains_key(token)]
        #![trigger partial_holders(classes, done, name, listed, token)]
        {
            let names = partial_holders(classes, done, name, listed, token);
            lookup.contains_key(token) == (names.len() > 0) && (names.len() > 0
                ==> lookup[token]@ == text::join(names, "|"@))
        }
}

/// Adds one class to a lookup that tells the classes before it.
fn add_class(
    lookup: &mut StringHashMap<String>,
    name: &String,
    values: &Vec<String>,
    Ghost(classes): Ghost<Classes>,
    Ghost(done): Ghost<int>,
)
    requires
        0 <= done < classes.len(),
        classes[done] == (name@, values.deep_view()),
        tells_partly(old(lookup)@, classes, done, name@, Seq::empty()),
    ensures
        tells_partly(final(lookup)@, classes, done, name@, values.deep_view()),
{
    let ghost all = values.deep_view();
    let mut seen = StringHashSet::new();
    let mut i: usize = 0;
    proof {
        assert(all.take(0) == Seq::<Seq<char>>::empty());
    }
    while i < values.len()
        invariant
            all == values.deep_view(),
            i <= values.len(),
            forall|t: Seq<char>| #[trigger] seen@.contains(t) == all.take(i as int).contains(t),
            tells_partly(lookup@, classes, done, name@, all.take(i as int)),
        decreases values.len() - i,
    {
        let value = &values[i];
        let ghost now = all.take(i as int);
        let ghost next = all.take(i + 1);
        let ghost before = lookup@;
        proof {
            assert(next == now.push(value@));
            assert(next[i as int] == value@);
            assert forall|t: Seq<char>| next.contains(t) == (now.contains(t) || t == value@) by {
                if now.contains(t) {
                    let k = choose|k: int| 0 <= k < now.len() && now[k] == t;
                    assert(next[k] == t);
                }
                if next.contains(t) && t != value@ {
                    let k = choose|k: int| 0 <= k < next.len() && next[k] == t;
                    assert(now[k] == t);
                }
            }
        }
        let fresh = seen.insert(value.clone());
        if fresh {
            let held = partial_joined(lookup, value.as_str(), name.as_str());
            lookup.insert(value.clone(), held);
        }
        proof {
            assert forall|t: Seq<char>|
                {
                    let names = #[trigger] partial_holders(classes, done, name@, next, t);
                    lookup@.contains_key(t) == (names.len() > 0) && (names.len() > 0
                        ==> lookup@[t]@ == text::join(names, "|"@))
                } by {
                let old_names = partial_holders(classes, done, name@, now, t);
                assert(before.contains_key(t) == (old_names.len() > 0));
                if t == value@ && fresh {
                    lemma_join_push(old_names, name@);
                }
            }
        }
        i = i + 1;
    }
    assert(all.take(i as int) == all);
}

/// The classes of a value that are known so far, and one more.
fn partial_joined(lookup: &StringHashMap<String>, value: &str, name: &str) -> (r: String)
    ensures
        r@ == if lookup@.contains_key(value@) {
            lookup@[value@]@ + "|"@ + name@
        } else {
            name@
        },
{
    match lookup.get(value) {
        Some(held) => text::glue3(held.as_str(), "|", name),
        None => name.to_string(),
    }
}

/// For every token that some class holds, the names of its classes.
pub fn build_token_class_lookup(classes: &TokenClassList) -> (r: StringHashMap<String>)
    ensures
        tells_classes(r@, classes.deep_view()),
{
    let ghost all = classes.deep_view();
    let mut lookup: StringHashMap<String> = StringHashMap::new();
    let mut i: usize = 0;
    proof {
        assert(all.take(0) == Seq::<(Seq<char>, Seq<Seq<char>>)>::empty());
        assert(tells_classes(lookup@, all.take(0)));
    }
    while i < classes.len()
        invariant
            all == classes.deep_view(),
            i <= classes.len(),
            tells_classes(lookup@, all.take(i as int)),
        decreases classes.len() - i,
    {
        let (name, values) = &classes[i];
        let ghost before = lookup@;
        proof {
            assert(all[i as int] == (name@, values.deep_view()));
            assert forall|t: Seq<char>|
                {
                    let names = #[trigger] partial_holders(
                        all,
                        i as int,
                        name@,
                        Seq::empty(),
                        t,
                    );
                    before.contains_key(t) == (names.len() > 0) && (names.len() > 0
                        ==> before[t]@ == text::join(names, "|"@))
                } by {
                assert(listed_class(all.take(i as int), t) is None || listed_class(
                    all.take(i as int),
                    t,
                ) is Some);
            }
        }
        add_class(&mut lookup, name, values, Ghost(all), Ghost(i as int));
        proof {
            let next = all.take(i + 1);
            assert(next.drop_last() == all.take(i as int));
            assert(next.last() == all[i as int]);
            assert forall|t: Seq<char>|
                if #[trigger] lookup@.contains_key(t) {
                    listed_class(next, t) == Some(lookup@[t]@)
                } else {
                    listed_class(next, t) is None
                } by {
                assert(partial_holders(all, i as int, name@, values.deep_view(), t) == holders(
                    next,
                    t,
                ));
            }
        }
        i = i + 1;
    }
    assert(all.take(i as int) == all);
    lookup
}

/// Whether expressions are those of the definitions, in order.
pub open spec fn serve_definitions(
    patterns: Seq<(String, TextRegex)>,
    definitions: Definitions,
) -> bool {
    patterns.len() == definitions.len() && forall|i: int|
        0 <= i < patterns.len() ==> (#[trigger] patterns[i]).0@ == definitions[i].0
            && patterns[i].1.source() == anchored_definition(definitions[i].1)
}

/// Whether an error tells of the first definition whose expression the engine refuses.
pub open spec fn tells_refusal(error: ParseError, definitions: Definitions) -> bool {
    exists|i: int|
        #![trigger definitions[i]]
        0 <= i < definitions.len() && definitions_compile(definitions.take(i))
            && !regex::regex_accepts(anchored_definition(definitions[i].1))
            && crate::error::is_invalid_definition(
            error,
            regex::compile_message("token definition"@, anchored_definition(definitions[i].1)),
        )
}

/// Compiles the expressions of definitions.
///
/// # Errors
///
/// [`ParseError::InvalidTokenDefinition`] where the engine refuses the expression of a definition.
pub fn compile_definitions(definitions: &TokenDefinition) -> (r: Result<
    Vec<(String, TextRegex)>,
    ParseError,
>)
    ensures
        r is Ok <==> definitions_compile(definitions.deep_view()),
        r matches Ok(patterns) ==> serve_definitions(patterns@, definitions.deep_view()),
        r matches Err(e) ==> tells_refusal(e, definitions.deep_view()),
{
    let ghost all = definitions.deep_view();
    let mut patterns: Vec<(String, TextRegex)> = Vec::new();
    let mut i: usize = 0;
    while i < definitions.len()
        invariant
            all == definitions.deep_view(),
            i <= definitions.len(),
            patterns.len() == i,
            forall|j: int|
                0 <= j < i ==> (#[trigger] patterns@[j]).0@ == all[j].0 && patterns@[j].1.source()
                    == anchored_definition(all[j].1),
            forall|j: int|
                0 <= j < i ==> regex::regex_accepts(anchored_definition((#[trigger] all[j]).1)),
        decreases definitions.len() - i,
    {
        let (name, pattern) = &definitions[i];
        assert(all[i as int] == (name@, pattern@));
        let anchored = anchor_definition(pattern.as_str());
        match regex::compile_definition(anchored.as_str()) {
            Ok(regex) => {
                patterns.push((name.clone(), regex));
            },
            Err(error) => {
                proof {
                    assert forall|j: int| 0 <= j < i implies regex::regex_accepts(
                        anchored_definition((#[trigger] all.take(i as int)[j]).1),
                    ) by {
                        assert(all.take(i as int)[j] == all[j]);
                    }
                }
                return Err(error);
            },
        }
        i = i + 1;
    }
    Ok(patterns)
}

/// Token definitions and token classes, compiled for lookup.
pub struct TokenModel {
    token_definitions: TokenDefinition,
    token_class_list: TokenClassList,
    compiled_patterns: Vec<(String, TextRegex)>,
    available_names: StringHashSet,
    token_class_lookup: StringHashMap<String>,
}

/// The value of a [`TokenModel`].
#[verifier::ext_equal]
pub struct TokenModelView {
    pub definitions: Definitions,
    pub classes: Classes,
}

impl View for TokenModel {
    type V = TokenModelView;

    closed spec fn view(&self) -> TokenModelView {
        TokenModelView {
            definitions: self.token_definitions.deep_view(),
            classes: self.token_class_list.deep_view(),
        }
    }
}

impl TokenModel {
    #[verifier::type_invariant]
    spec fn is_compiled(self) -> bool {
        &&& serve_definitions(self.compiled_patterns@, self@.definitions)
        &&& self.available_names@ == definition_names(self@.definitions)
        &&& tells_classes(self.token_class_lookup@, self@.classes)
    }

    /// Compiles definitions and classes that are known to compile.
    #[must_use]
    pub fn from_parts(token_definitions: TokenDefinition, token_class_list: TokenClassList) -> (r:
        Self)
        requires
            definitions_compile(token_definitions.deep_view()),
        ensures
            r@ == (TokenModelView {
                definitions: token_definitions.deep_view(),
                classes: token_class_list.deep_view(),
            }),
    {
        let available_names = names_of(&token_definitions);
        let compiled_patterns = match compile_definitions(&token_definitions) {
            Ok(compiled_patterns) => compiled_patterns,
            Err(_) => {
                proof {
                    assert(false);
                }
                Vec::new()
            },
        };
        let token_class_lookup = build_token_class_lookup(&token_class_list);
        TokenModel {
            token_definitions,
            token_class_list,
            compiled_patterns,
            available_names,
            token_class_lookup,
        }
    }

    /// Compiles definitions and classes.
    ///
    /// # Errors
    ///
    /// [`ParseError::InvalidTokenDefinition`] where the engine refuses the expression of a
    /// definition.
    pub fn try_from_parts(
        token_definitions: TokenDefinition,
        token_class_list: TokenClassList,
    ) -> (r: Result<Self, ParseError>)
        ensures
            r is Ok <==> definitions_compile(token_definitions.deep_view()),
            r matches Ok(model) ==> model@ == (TokenModelView {
                definitions: token_definitions.deep_view(),
                classes: token_class_list.deep_view(),
            }),
            r matches Err(e) ==> tells_refusal(e, token_definitions.deep_view()),
    {
        match compile_definitions(&token_definitions) {
            Ok(_) => Ok(TokenModel::from_parts(token_definitions, token_class_list)),
            Err(error) => Err(error),
        }
    }

    /// The token definitions.
    #[must_use]
    pub fn token_definitions(&self) -> (r: &TokenDefinition)
        ensures
            r.deep_view() == self@.definitions,
    {
        &self.token_definitions
    }

    /// The token classes.
    #[must_use]
    pub fn token_class_list(&self) -> (r: &TokenClassList)
        ensures
            r.deep_view() == self@.classes,
    {
        &self.token_class_list
    }

    /// The names and compiled expressions of the definitions.
    #[must_use]
    pub fn compiled_patterns(&self) -> (r: &[(String, TextRegex)])
        ensures
            serve_definitions(r@, self@.definitions),
    {
        proof {
            use_type_invariant(self);
        }
        self.compiled_patterns.as_slice()
    }

    /// The names of the definitions.
    #[must_use]
    pub fn available_names(&self) -> (r: &StringHashSet)
        ensures
            r@ == definition_names(self@.definitions),
    {
        proof {
            use_type_invariant(self);
        }
        &self.available_names
    }

    /// For every token that some class holds, the names of its classes.
    #[must_use]
    pub fn token_class_lookup(&self) -> (r: &StringHashMap<String>)
        ensures
            tells_classes(r@, self@.classes),
    {
        proof {
            use_type_invariant(self);
        }
        &self.token_class_lookup
    }
}

} // verus!
