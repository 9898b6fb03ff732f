//! What holds of reading definitions and classes.

use crate::text;
use crate::text::laws as text_laws;
use crate::text::CharClass;
use crate::token_model;
use crate::token_model::{Classes, Definitions};
use crate::unicode;
use vstd::prelude::*;

verus! {

/// A tag that opens.
pub open spec fn opening(tag: Seq<char>) -> Seq<char> {
    seq!['<'] + tag + seq!['>']
}

/// A tag that closes.
pub open spec fn closing(tag: Seq<char>) -> Seq<char> {
    seq!['<', '/'] + tag + seq!['>']
}

/// The first place of a text that begins with `<`, in a line with no `<` before it.
proof fn lemma_found_at(line: Seq<char>, pat: Seq<char>, from: int, at: int)
    requires
        pat.len() > 0,
        pat[0] == '<',
        0 <= from <= at,
        at + pat.len() <= line.len(),
        line.subrange(at, at + pat.len()) == pat,
        forall|i: int| from <= i < at ==> line[i] != '<',
    ensures
        text::find_from(line, pat, from) == Some(at),
{
    text_laws::law_first_occurrence_is_found(line, pat, from);
    let found = text::find_from(line, pat, from);
    if found is None {
        assert(line.subrange(at, at + pat.len()) != pat);
    } else {
        let k = found->0;
        if k < at {
            assert(line.subrange(k, k + pat.len())[0] == line[k]);
        } else if k > at {
            assert(line.subrange(at, at + pat.len()) != pat);
        }
    }
}

/// What a tag encloses is read, whatever follows.
pub proof fn law_tags_enclose(
    before: Seq<char>,
    tag: Seq<char>,
    value: Seq<char>,
    after: Seq<char>,
)
    requires
        !before.contains('<'),
        !value.contains('<'),
    ensures
        token_model::tag_value(before + opening(tag) + value + closing(tag) + after, tag) == Some(
            value,
        ),
{
    let line = before + opening(tag) + value + closing(tag) + after;
    let at = before.len() as int;
    let from = at + tag.len() + 2;
    let to = from + value.len();
    assert(line.subrange(at, from) =~= opening(tag));
    assert(line.subrange(from, to) =~= value);
    assert(line.subrange(to, to + tag.len() + 3) =~= closing(tag));
    assert forall|i: int| 0 <= i < at implies line[i] != '<' by {
        assert(line[i] == before[i]);
        assert(line[i] == '<' ==> before.contains('<'));
    }
    lemma_tag_is_read(line, tag, at, value);
}

proof fn lemma_tag_is_read(line: Seq<char>, tag: Seq<char>, at: int, value: Seq<char>)
    requires
        0 <= at,
        at + tag.len() + 2 + value.len() + tag.len() + 3 <= line.len(),
        forall|i: int| 0 <= i < at ==> line[i] != '<',
        line.subrange(at, at + tag.len() + 2) == opening(tag),
        line.subrange(at + tag.len() + 2, at + tag.len() + 2 + value.len()) == value,
        line.subrange(
            at + tag.len() + 2 + value.len(),
            at + tag.len() + 2 + value.len() + tag.len() + 3,
        ) == closing(tag),
        !value.contains('<'),
    ensures
        token_model::tag_value(line, tag) == Some(value),
{
    reveal_strlit("<");
    reveal_strlit(">");
    reveal_strlit("</");
    assert("<"@ + tag + ">"@ =~= opening(tag));
    assert("</"@ + tag + ">"@ =~= closing(tag));
    lemma_found_at(line, opening(tag), 0, at);
    let from = at + tag.len() + 2;
    let to = from + value.len();
    assert forall|i: int| from <= i < to implies line[i] != '<' by {
        assert(value[i - from] == line[i]);
        assert(line[i] == '<' ==> value.contains('<'));
    }
    lemma_found_at(line, closing(tag), from, to);
}

/// A line that a definition is written in.
pub open spec fn definition_line(name: Seq<char>, between: Seq<char>, value: Seq<char>) -> Seq<char> {
    opening("NAME"@) + name + closing("NAME"@) + between + opening("VALUE"@) + value + closing(
        "VALUE"@,
    )
}

/// The tags of a definition tell its name and its value.
pub proof fn law_definition_lines_are_read(name: Seq<char>, between: Seq<char>, value: Seq<char>)
    requires
        !name.contains('<'),
        !value.contains('<'),
        !between.contains('<'),
    ensures
        token_model::tag_value(definition_line(name, between, value), "NAME"@) == Some(name),
        token_model::tag_value(definition_line(name, between, value), "VALUE"@) == Some(value),
{
    reveal_strlit("NAME");
    reveal_strlit("VALUE");
    let line = definition_line(name, between, value);
    let n = "NAME"@;
    let v = "VALUE"@;
    assert(n =~= seq!['N', 'A', 'M', 'E'] && v =~= seq!['V', 'A', 'L', 'U', 'E']);
    assert(line =~= Seq::<char>::empty() + opening(n) + name + closing(n) + (between + opening(v)
        + value + closing(v)));
    law_tags_enclose(Seq::empty(), n, name, between + opening(v) + value + closing(v));
    // The value's tag is the first of its kind.
    reveal_strlit("<");
    reveal_strlit(">");
    reveal_strlit("</");
    assert("<"@ + v + ">"@ =~= opening(v));
    assert("</"@ + v + ">"@ =~= closing(v));
    let at = 6 + name.len() as int + 7 + between.len();
    let open = opening(v);
    let close = closing(v);
    let from = at + 7;
    let to = from + value.len();
    assert(line.subrange(at, at + 7) =~= open);
    assert(line.subrange(to, to + 8) =~= close);
    text_laws::law_first_occurrence_is_found(line, open, 0);
    let found = text::find_from(line, open, 0);
    assert(found == Some(at)) by {
        if found is None {
            assert(line.subrange(at, at + open.len()) != open);
        } else {
            let k = found->0;
            if k > at {
                assert(line.subrange(at, at + open.len()) != open);
            } else if k < at {
                assert(line.subrange(k, k + 7)[0] == line[k]);
                assert(line.subrange(k, k + 7)[1] == line[k + 1]);
                assert(open[0] == '<' && open[1] == 'V');
                lemma_no_other_tag(name, between, value, k);
            }
        }
    }
    assert forall|i: int| from <= i < to implies line[i] != '<' by {
        assert(line[i] == value[i - from]);
        assert(line[i] == '<' ==> value.contains('<'));
    }
    lemma_found_at(line, close, from, to);
    assert(line.subrange(from, to) =~= value);
}

/// Before the tag of the value no `<` is followed by `V`.
proof fn lemma_no_other_tag(name: Seq<char>, between: Seq<char>, value: Seq<char>, k: int)
    requires
        !name.contains('<'),
        !between.contains('<'),
        0 <= k < 13 + name.len() + between.len(),
    ensures
        !(definition_line(name, between, value)[k] == '<' && definition_line(
            name,
            between,
            value,
        )[k + 1] == 'V'),
{
    reveal_strlit("NAME");
    reveal_strlit("VALUE");
    let line = definition_line(name, between, value);
    let n = name.len() as int;
    if k < 6 {
        assert(line[k] == opening("NAME"@)[k]);
        assert(k == 0 ==> line[1] == opening("NAME"@)[1]);
    } else if k < 6 + n {
        assert(line[k] == name[k - 6]);
        assert(line[k] == '<' ==> name.contains('<'));
    } else if k < 13 + n {
        assert(line[k] == closing("NAME"@)[k - 6 - n]);
        assert(k == 6 + n ==> line[k + 1] == closing("NAME"@)[1]);
    } else {
        assert(line[k] == between[k - 13 - n]);
        assert(line[k] == '<' ==> between.contains('<'));
    }
}

/// A text that neither begins nor ends with white space is what trimming leaves of it.
proof fn lemma_trimmed(s: Seq<char>)
    requires
        s.len() > 0,
        !unicode::is_white(s[0]),
        !unicode::is_white(s.last()),
    ensures
        text::trim(s) == s,
{
    text::lemma_run_is(s, CharClass::White, 0);
    assert(s.skip(0) =~= s);
    text::lemma_trailing_is(s, 0);
    assert(s.take(s.len() as int) =~= s);
}

/// Lines that hold something, and no white space at their ends, stay as they are.
proof fn lemma_nonblank_lines(lines: Seq<Seq<char>>)
    requires
        forall|i: int|
            0 <= i < lines.len() ==> (#[trigger] lines[i]).len() > 0 && text::trim(lines[i])
                == lines[i],
    ensures
        text::nonblank(lines) == lines,
    decreases lines.len(),
{
    if lines.len() > 0 {
        let before = lines.drop_last();
        assert forall|i: int| 0 <= i < before.len() implies (#[trigger] before[i]).len() > 0
            && text::trim(before[i]) == before[i] by {
            assert(before[i] == lines[i]);
        }
        lemma_nonblank_lines(before);
        assert(lines[lines.len() - 1].len() > 0);
        assert(before.push(lines.last()) == lines);
    }
}

/// The content whose lines are the given ones has those lines, but for blank ones.
pub proof fn law_lines_are_read(lines: Seq<Seq<char>>)
    requires
        lines.len() > 0,
        forall|i: int| 0 <= i < lines.len() ==> !(#[trigger] lines[i]).contains('\n'),
    ensures
        token_model::lines_of(text::join(lines, seq!['\n'])) == text::nonblank(lines),
{
    text_laws::law_joined_parts_come_apart(lines, '\n');
}

/// A blank line counts for nothing, and white space round a line neither.
pub proof fn law_white_space_round_lines_is_left_out(
    lines: Seq<Seq<char>>,
    blanks: Seq<char>,
    before: Seq<char>,
    line: Seq<char>,
    after: Seq<char>,
)
    requires
        forall|i: int| 0 <= i < blanks.len() ==> unicode::is_white(#[trigger] blanks[i]),
        forall|i: int| 0 <= i < before.len() ==> unicode::is_white(#[trigger] before[i]),
        forall|i: int| 0 <= i < after.len() ==> unicode::is_white(#[trigger] after[i]),
        line.len() > 0,
        !unicode::is_white(line[0]),
        !unicode::is_white(line.last()),
    ensures
        text::nonblank(lines.push(blanks)) == text::nonblank(lines),
        text::nonblank(lines.push(before + line + after)) == text::nonblank(lines).push(line),
{
    assert(lines.push(blanks).drop_last() =~= lines);
    text_laws::law_trimming_takes_blanks_alone(blanks);
    if text::trim(blanks).len() > 0 {
        let (from, to) = choose|from: int, to: int|
            0 <= from <= to <= blanks.len() && text::trim(blanks) == #[trigger] blanks.subrange(
                from,
                to,
            );
        assert(text::trim(blanks)[0] == blanks[from]);
        assert(unicode::is_white(blanks[from]));
    }
    let s = before + line + after;
    assert(lines.push(s).drop_last() =~= lines);
    let n = before.len() as int;
    assert forall|i: int| 0 <= i < n implies text::in_class(CharClass::White, #[trigger] s[i]) by {
        assert(s[i] == before[i]);
    }
    assert(s[n] == line[0]);
    text::lemma_run_is(s, CharClass::White, n);
    let t = text::trim_start(s);
    assert(t =~= line + after);
    let m = after.len() as int;
    assert(t[t.len() - m - 1] == line.last());
    assert forall|i: int| t.len() - m <= i < t.len() implies unicode::is_white(#[trigger] t[i]) by {
        assert(t[i] == after[i - line.len()]);
    }
    text::lemma_trailing_is(t, m);
    assert(text::trim(s) =~= line);
}

/// Comments count for nothing; of other lines each is a token of a class.
pub proof fn law_comments_are_left_out(lines: Seq<Seq<char>>, rest: Seq<char>, line: Seq<char>)
    requires
        line.len() > 0,
        line[0] != '#',
    ensures
        token_model::definitions_in(lines.push(seq!['#'] + rest)) == token_model::definitions_in(
            lines,
        ),
        token_model::values_in(lines.push(seq!['#'] + rest)) == token_model::values_in(lines),
        token_model::values_in(lines.push(line)) == token_model::values_in(lines).push(line),
{
    reveal_strlit("#");
    let comment = seq!['#'] + rest;
    assert(lines.push(comment).drop_last() =~= lines);
    assert(lines.push(line).drop_last() =~= lines);
    assert("#"@ =~= seq!['#']);
    assert("#"@ =~= comment.subrange(0, 1));
    assert("#"@.is_prefix_of(comment));
    assert(line.subrange(0, 1)[0] == line[0]);
}

/// The lines that definitions are written in.
pub open spec fn definition_lines(definitions: Definitions) -> Seq<Seq<char>> {
    Seq::new(
        definitions.len(),
        |i: int| definition_line(definitions[i].0, Seq::empty(), definitions[i].1),
    )
}

/// Definitions come back from the lines that they are written in, all of them and in order.
pub proof fn law_definitions_come_back(definitions: Definitions)
    requires
        forall|i: int|
            0 <= i < definitions.len() ==> !(#[trigger] definitions[i]).0.contains('<')
                && !definitions[i].0.contains('\n') && !definitions[i].1.contains('<')
                && !definitions[i].1.contains('\n'),
    ensures
        token_model::definitions_in(definition_lines(definitions)) == definitions,
        definitions.len() > 0 ==> token_model::definitions_in(
            token_model::lines_of(text::join(definition_lines(definitions), seq!['\n'])),
        ) == definitions,
{
    lemma_definitions_come_back(definitions);
    let lines = definition_lines(definitions);
    assert forall|i: int| 0 <= i < lines.len() implies !(#[trigger] lines[i]).contains('\n')
        && lines[i].len() > 0 && text::trim(lines[i]) == lines[i] by {
        lemma_definition_line(definitions[i].0, definitions[i].1);
    }
    if definitions.len() > 0 {
        law_lines_are_read(lines);
        lemma_nonblank_lines(lines);
    }
}

proof fn lemma_definition_line(name: Seq<char>, value: Seq<char>)
    requires
        !name.contains('\n'),
        !value.contains('\n'),
    ensures
        ({
            let line = definition_line(name, Seq::empty(), value);
            !line.contains('\n') && line.len() > 0 && text::trim(line) == line && line[0] == '<'
        }),
{
    reveal_strlit("NAME");
    reveal_strlit("VALUE");
    let line = definition_line(name, Seq::empty(), value);
    assert(line[0] == '<' && line.last() == '>');
    lemma_trimmed(line);
    let n = name.len() as int;
    let v = value.len() as int;
    assert forall|k: int| 0 <= k < line.len() implies line[k] != '\n' by {
        if k < 6 {
            assert(line[k] == opening("NAME"@)[k]);
        } else if k < 6 + n {
            assert(line[k] == name[k - 6]);
            assert(line[k] == '\n' ==> name.contains('\n'));
        } else if k < 13 + n {
            assert(line[k] == closing("NAME"@)[k - 6 - n]);
        } else if k < 20 + n {
            assert(line[k] == opening("VALUE"@)[k - 13 - n]);
        } else if k < 20 + n + v {
            assert(line[k] == value[k - 20 - n]);
            assert(line[k] == '\n' ==> value.contains('\n'));
        } else {
            assert(line[k] == closing("VALUE"@)[k - 20 - n - v]);
        }
    }
}

proof fn lemma_definitions_come_back(definitions: Definitions)
    requires
        forall|i: int|
            0 <= i < definitions.len() ==> !(#[trigger] definitions[i]).0.contains('<')
                && !definitions[i].0.contains('\n') && !definitions[i].1.contains('<')
                && !definitions[i].1.contains('\n'),
    ensures
        token_model::definitions_in(definition_lines(definitions)) == definitions,
    decreases definitions.len(),
{
    reveal_strlit("#");
    let lines = definition_lines(definitions);
    if definitions.len() > 0 {
        let before = definitions.drop_last();
        assert forall|i: int| 0 <= i < before.len() implies !(#[trigger] before[i]).0.contains('<')
            && !before[i].0.contains('\n') && !before[i].1.contains('<') && !before[i].1.contains(
            '\n',
        ) by {
            assert(before[i] == definitions[i]);
        }
        lemma_definitions_come_back(before);
        assert(lines.drop_last() =~= definition_lines(before));
        let last = definitions[definitions.len() - 1];
        law_definition_lines_are_read(last.0, Seq::empty(), last.1);
        lemma_definition_line(last.0, last.1);
        let line = lines.last();
        assert(line.subrange(0, 1)[0] == line[0]);
        assert(before.push(last) =~= definitions);
    } else {
        assert(definitions =~= Seq::empty());
    }
}

/// The tokens of a class come back from the content that lists them, all of them and in order.
pub proof fn law_values_come_back(values: Seq<Seq<char>>)
    requires
        values.len() > 0,
        forall|i: int|
            0 <= i < values.len() ==> (#[trigger] values[i]).len() > 0 && values[i][0] != '#'
                && !unicode::is_white(values[i][0]) && !unicode::is_white(values[i].last())
                && !values[i].contains('\n'),
    ensures
        token_model::values_in(token_model::lines_of(text::join(values, seq!['\n']))) == values,
{
    assert forall|i: int| 0 <= i < values.len() implies !(#[trigger] values[i]).contains('\n')
        && values[i].len() > 0 && text::trim(values[i]) == values[i] by {
        lemma_trimmed(values[i]);
    }
    law_lines_are_read(values);
    lemma_nonblank_lines(values);
    lemma_values_come_back(values);
}

proof fn lemma_values_come_back(values: Seq<Seq<char>>)
    requires
        forall|i: int|
            0 <= i < values.len() ==> (#[trigger] values[i]).len() > 0 && values[i][0] != '#',
    ensures
        token_model::values_in(values) == values,
    decreases values.len(),
{
    if values.len() > 0 {
        let before = values.drop_last();
        assert forall|i: int| 0 <= i < before.len() implies (#[trigger] before[i]).len() > 0
            && before[i][0] != '#' by {
            assert(before[i] == values[i]);
        }
        lemma_values_come_back(before);
        let last = values[values.len() - 1];
        assert(last.len() > 0 && last[0] != '#');
        law_comments_are_left_out(before, Seq::empty(), last);
        assert(before.push(last) =~= values);
    } else {
        assert(values =~= Seq::empty());
    }
}

/// The classes of a token are those that list it, each once for each time that it stands in the
/// list of classes, and in its order.
pub proof fn law_holders_list_the_token(
    a: Classes,
    b: Classes,
    name: Seq<char>,
    values: Seq<Seq<char>>,
    token: Seq<char>,
)
    ensures
        token_model::holders(a + b, token) == token_model::holders(a, token)
            + token_model::holders(b, token),
        values.contains(token) ==> token_model::holders(seq![(name, values)], token) == seq![name],
        !values.contains(token) ==> token_model::holders(seq![(name, values)], token).len() == 0,
        token_model::holders(Seq::empty(), token).len() == 0,
{
    lemma_holders_of_two(a, b, token);
    let one: Classes = seq![(name, values)];
    assert(one.drop_last() =~= Seq::empty());
    assert(token_model::holders(one.drop_last(), token) =~= Seq::empty());
    assert(one.last() == (name, values));
    assert(Seq::<Seq<char>>::empty().push(name) =~= seq![name]);
}

proof fn lemma_holders_of_two(a: Classes, b: Classes, token: Seq<char>)
    ensures
        token_model::holders(a + b, token) == token_model::holders(a, token)
            + token_model::holders(b, token),
    decreases b.len(),
{
    if b.len() == 0 {
        assert(a + b =~= a);
    } else {
        assert((a + b).drop_last() =~= a + b.drop_last());
        assert((a + b).last() == b.last());
        lemma_holders_of_two(a, b.drop_last(), token);
    }
}

/// A token that no class lists has none; one that one class lists has that; one that two list has
/// both, joined by `|` in the order of the list.
pub proof fn law_listed_classes_are_joined(classes: Classes, token: Seq<char>)
    ensures
        ({
            let names = token_model::holders(classes, token);
            let told = token_model::listed_class(classes, token);
            &&& names.len() == 0 <==> told is None
            &&& names.len() == 0 <==> forall|i: int|
                0 <= i < classes.len() ==> !(#[trigger] classes[i]).1.contains(token)
            &&& names.len() == 1 ==> told == Some(names[0])
            &&& names.len() == 2 ==> told == Some(names[0] + seq!['|'] + names[1])
        }),
{
    reveal_strlit("|");
    let names = token_model::holders(classes, token);
    lemma_held_where_listed(classes, token);
    assert("|"@ =~= seq!['|']);
    if names.len() == 2 {
        assert(names.drop_last().len() == 1);
        assert(text::join(names.drop_last(), "|"@) == names[0]);
    }
}

proof fn lemma_held_where_listed(classes: Classes, token: Seq<char>)
    ensures
        token_model::holders(classes, token).len() == 0 <==> forall|i: int|
            0 <= i < classes.len() ==> !(#[trigger] classes[i]).1.contains(token),
    decreases classes.len(),
{
    if classes.len() > 0 {
        let before = classes.drop_last();
        lemma_held_where_listed(before, token);
        assert forall|i: int| 0 <= i < before.len() implies before[i] == classes[i] by {}
        if classes.last().1.contains(token) {
            assert(classes[classes.len() - 1].1.contains(token));
        } else if token_model::holders(before, token).len() > 0 {
            let i = choose|i: int| 0 <= i < before.len() && (#[trigger] before[i]).1.contains(token);
            assert(classes[i].1.contains(token));
        } else {
            assert forall|i: int| 0 <= i < classes.len() implies !(#[trigger]
            classes[i]).1.contains(token) by {
                if i < before.len() {
                    assert(!before[i].1.contains(token));
                }
            }
        }
    }
}

} // verus!
