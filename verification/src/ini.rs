//! The INI dialect in which Firefox lists its profiles.

use crate::string_map::StringMap;
use crate::text;
use vstd::prelude::*;

verus! {

/// A section: its name and its entries.
pub struct IniSection {
    pub name: String,
    pub values: StringMap,
}

/// What a section says.
#[verifier::ext_equal]
pub struct Section {
    pub name: Seq<char>,
    pub values: Map<Seq<char>, Seq<char>>,
}

impl View for IniSection {
    type V = Section;

    open spec fn view(&self) -> Section {
        Section { name: self.name@, values: self.values@ }
    }
}

/// What the sections say.
pub open spec fn views(sections: Seq<IniSection>) -> Seq<Section> {
    sections.map_values(|section: IniSection| section@)
}

/// Whether a trimmed line is empty or a comment.
pub open spec fn is_blank(line: Seq<char>) -> bool {
    line.len() == 0 || line[0] == '#' || line[0] == ';'
}

/// Whether a trimmed line opens a section.
pub open spec fn is_heading(line: Seq<char>) -> bool {
    line.len() > 0 && line[0] == '[' && line.last() == ']'
}

/// The name between the brackets of a heading.
pub open spec fn heading_name(line: Seq<char>) -> Seq<char> {
    line.subrange(1, line.len() - 1)
}

/// `sections` after one more trimmed line: a heading opens a section, an entry goes
/// to the section opened last, and every other line is passed over.
pub open spec fn after_line(sections: Seq<Section>, line: Seq<char>) -> Seq<Section> {
    if is_blank(line) {
        sections
    } else if is_heading(line) {
        sections.push(Section { name: heading_name(line), values: Map::empty() })
    } else if sections.len() == 0 {
        sections
    } else {
        match text::split_once_on(line, '=') {
            Some((key, value)) => {
                let open = sections.last();
                sections.drop_last().push(
                    Section {
                        name: open.name,
                        values: open.values.insert(text::trimmed(key), text::trimmed(value)),
                    },
                )
            },
            None => sections,
        }
    }
}

/// The sections that a list of lines holds.
pub open spec fn sections_of(lines: Seq<Seq<char>>) -> Seq<Section>
    decreases lines.len(),
{
    if lines.len() == 0 {
        Seq::empty()
    } else {
        after_line(sections_of(lines.drop_last()), text::trimmed(lines.last()))
    }
}

/// The sections that a file holds, in the order of their headings.
pub open spec fn ini_sections(contents: Seq<char>) -> Seq<Section> {
    sections_of(text::split_on(contents, '\n'))
}

/// Reads one trimmed line into the sections read so far.
fn read_line(sections: &mut Vec<IniSection>, line: &str)
    ensures
        views(final(sections)@) == after_line(views(old(sections)@), line@),
{
    let chars = text::chars_of(line);
    let n: usize = chars.len();
    let ghost before = views(sections@);
    if n == 0 || chars[0] == '#' || chars[0] == ';' {
        return;
    }
    if chars[0] == '[' && chars[n - 1] == ']' {
        let name = line.substring_char(1, n - 1).to_owned();
        sections.push(IniSection { name, values: StringMap::new() });
        assert(views(sections@) == after_line(before, line@));
    } else {
        match sections.pop() {
            Some(open) => {
                let mut section = open;
                match text::split_once(line, '=') {
                    Some((key, value)) => {
                        section.values.insert(
                            text::trim(key).to_owned(),
                            text::trim(value).to_owned(),
                        );
                    },
                    None => {},
                }
                sections.push(section);
                assert(views(sections@) == after_line(before, line@));
            },
            None => {},
        }
    }
}

/// The sections that `contents` holds, in the order of their headings.
pub fn parse_ini(contents: &str) -> (res: Vec<IniSection>)
    ensures
        views(res@) == ini_sections(contents@),
{
    let lines = text::split(contents, '\n');
    let ghost all = text::texts(lines@);
    let mut sections: Vec<IniSection> = Vec::new();
    assert(views(sections@) == Seq::<Section>::empty());
    let mut i: usize = 0;
    while i < lines.len()
        invariant
            all == text::texts(lines@),
            i <= lines.len(),
            views(sections@) == sections_of(all.take(i as int)),
        decreases lines.len() - i,
    {
        assert(all.take(i + 1).drop_last() == all.take(i as int));
        assert(all.take(i + 1).last() == lines@[i as int]@);
        read_line(&mut sections, text::trim(lines[i]));
        i = i + 1;
    }
    assert(all.take(i as int) == all);
    sections
}

/// A blank line or a comment makes no difference, wherever it stands.
pub proof fn law_comments_make_no_difference(
    before: Seq<Seq<char>>,
    comment: Seq<char>,
    after: Seq<Seq<char>>,
)
    requires
        is_blank(text::trimmed(comment)),
    ensures
        sections_of(before.push(comment) + after) == sections_of(before + after),
    decreases after.len(),
{
    if after.len() == 0 {
        assert(before.push(comment) + after == before.push(comment));
        assert(before + after == before);
        assert(before.push(comment).drop_last() == before);
    } else {
        let rest = after.drop_last();
        law_comments_make_no_difference(before, comment, rest);
        assert((before.push(comment) + after).drop_last() == before.push(comment) + rest);
        assert((before + after).drop_last() == before + rest);
    }
}

/// White space at the ends of lines makes no difference.
pub proof fn law_space_around_lines_makes_no_difference(a: Seq<Seq<char>>, b: Seq<Seq<char>>)
    requires
        a.len() == b.len(),
        forall|i: int|
            0 <= i < a.len() ==> text::trimmed(#[trigger] a[i]) == text::trimmed(b[i]),
    ensures
        sections_of(a) == sections_of(b),
    decreases a.len(),
{
    if a.len() > 0 {
        let before = a.drop_last();
        assert forall|i: int| 0 <= i < before.len() implies text::trimmed(#[trigger] before[i])
            == text::trimmed(b.drop_last()[i]) by {
            assert(before[i] == a[i]);
        }
        law_space_around_lines_makes_no_difference(before, b.drop_last());
        assert(text::trimmed(a[a.len() - 1]) == text::trimmed(b[b.len() - 1]));
    }
}

/// Entries in front of the first heading belong to no section.
pub proof fn law_entries_need_a_heading(lines: Seq<Seq<char>>)
    requires
        forall|i: int|
            0 <= i < lines.len() ==> !is_heading(text::trimmed(#[trigger] lines[i])),
    ensures
        sections_of(lines) == Seq::<Section>::empty(),
    decreases lines.len(),
{
    if lines.len() > 0 {
        let before = lines.drop_last();
        assert forall|i: int| 0 <= i < before.len() implies !is_heading(
            text::trimmed(#[trigger] before[i]),
        ) by {
            assert(before[i] == lines[i]);
        }
        law_entries_need_a_heading(before);
        assert(!is_heading(text::trimmed(lines[lines.len() - 1])));
    }
}

/// Whether one of the lines up to the one with index `i` is a heading.
pub open spec fn has_heading(lines: Seq<Seq<char>>, i: int) -> bool {
    exists|k: int| 0 <= k <= i && is_heading(text::trimmed(#[trigger] lines[k]))
}

/// Whether every line in front of the first heading is blank.
pub open spec fn starts_with_heading(lines: Seq<Seq<char>>) -> bool {
    forall|i: int|
        0 <= i < lines.len() && !is_blank(text::trimmed(lines[i])) ==> #[trigger] has_heading(
            lines,
            i,
        )
}

proof fn lemma_heading_opens_section(lines: Seq<Seq<char>>, k: int)
    requires
        0 <= k < lines.len(),
        is_heading(text::trimmed(lines[k])),
    ensures
        sections_of(lines).len() > 0,
    decreases lines.len(),
{
    if k < lines.len() - 1 {
        assert(lines.drop_last()[k] == lines[k]);
        lemma_heading_opens_section(lines.drop_last(), k);
    }
}

/// A line that needs no section before it is read the same way behind other sections.
proof fn lemma_after_line_joined(before: Seq<Section>, read: Seq<Section>, line: Seq<char>)
    requires
        is_blank(line) || is_heading(line) || read.len() > 0,
    ensures
        after_line(before + read, line) == before + after_line(read, line),
{
    if !is_blank(line) && !is_heading(line) {
        assert((before + read).drop_last() == before + read.drop_last());
        assert((before + read).last() == read.last());
    }
    assert(after_line(before + read, line) =~= before + after_line(read, line));
}

proof fn lemma_sections_of_joined(front: Seq<Seq<char>>, back: Seq<Seq<char>>)
    requires
        starts_with_heading(back),
    ensures
        sections_of(front + back) == sections_of(front) + sections_of(back),
    decreases back.len(),
{
    if back.len() == 0 {
        assert(front + back == front);
        assert(sections_of(front) + sections_of(back) == sections_of(front));
    } else {
        let rest = back.drop_last();
        let last = back.len() - 1;
        let line = text::trimmed(back.last());
        assert forall|i: int|
            0 <= i < rest.len() && !is_blank(text::trimmed(rest[i])) implies #[trigger] has_heading(
            rest,
            i,
        ) by {
            assert(has_heading(back, i));
            let k = choose|k: int|
                0 <= k <= i && is_heading(text::trimmed(#[trigger] back[k]));
            assert(rest[k] == back[k]);
        }
        lemma_sections_of_joined(front, rest);
        assert((front + back).drop_last() == front + rest);
        assert((front + back).last() == back.last());
        if !is_blank(line) && !is_heading(line) {
            assert(has_heading(back, last));
            let k = choose|k: int|
                0 <= k <= last && is_heading(text::trimmed(#[trigger] back[k]));
            assert(rest[k] == back[k]);
            lemma_heading_opens_section(rest, k);
        }
        lemma_after_line_joined(sections_of(front), sections_of(rest), line);
    }
}

/// Two files with a line break in between hold the sections of the one and then those of the
/// other, where the other has nothing but blank lines in front of its first heading.
pub proof fn law_files_are_read_one_after_the_other(a: Seq<char>, b: Seq<char>)
    requires
        starts_with_heading(text::split_on(b, '\n')),
    ensures
        ini_sections(a.push('\n') + b) == ini_sections(a) + ini_sections(b),
{
    text::lemma_split_on_joined(a, '\n', b);
    lemma_sections_of_joined(text::split_on(a, '\n'), text::split_on(b, '\n'));
}

proof fn lemma_one_more_line(contents: Seq<char>, line: Seq<char>)
    requires
        !line.contains('\n'),
    ensures
        ini_sections(contents.push('\n') + line) == after_line(
            ini_sections(contents),
            text::trimmed(line),
        ),
{
    text::lemma_split_on_joined(contents, '\n', line);
    text::lemma_split_on_single(line, '\n');
    let lines = text::split_on(contents, '\n');
    let all = lines + seq![line];
    assert(all == lines.push(line));
    assert(lines.push(line).drop_last() == lines);
}

/// A line in brackets opens a section without entries, named by all that stands in between,
/// behind the sections opened before; white space around it makes no difference.
pub proof fn law_brackets_open_a_section(
    contents: Seq<char>,
    a: Seq<char>,
    name: Seq<char>,
    b: Seq<char>,
)
    requires
        text::all_space(a),
        text::all_space(b),
        !(a + (seq!['['] + name + seq![']']) + b).contains('\n'),
    ensures
        ini_sections(contents.push('\n') + (a + (seq!['['] + name + seq![']']) + b))
            == ini_sections(contents).push(Section { name, values: Map::empty() }),
{
    let heading = seq!['['] + name + seq![']'];
    lemma_one_more_line(contents, a + heading + b);
    text::law_only_outer_space_is_trimmed(a, heading, b);
    assert(heading.subrange(1, heading.len() - 1) == name);
}

/// An entry gives the section opened last a value: what stands before the first equals sign
/// is its key and all that follows is its value, without the white space around both. It
/// replaces an earlier value of the key and leaves everything else.
pub proof fn law_entry_belongs_to_the_last_section(
    contents: Seq<char>,
    a: Seq<char>,
    key: Seq<char>,
    b: Seq<char>,
    c: Seq<char>,
    value: Seq<char>,
    d: Seq<char>,
)
    requires
        text::all_space(a),
        text::all_space(b),
        text::all_space(c),
        text::all_space(d),
        text::is_trimmed(key),
        text::is_trimmed(value),
        !key.contains('='),
        !(a + key + b + seq!['='] + c + value + d).contains('\n'),
        key.len() > 0 ==> key[0] != '#' && key[0] != ';',
        key.len() > 0 && key[0] == '[' && value.len() > 0 ==> value[value.len() - 1] != ']',
        ini_sections(contents).len() > 0,
    ensures
        ({
            let before = ini_sections(contents);
            let after = ini_sections(
                contents.push('\n') + (a + key + b + seq!['='] + c + value + d),
            );
            let last = before.len() - 1;
            &&& after.len() == before.len()
            &&& forall|i: int| 0 <= i < last ==> #[trigger] after[i] == before[i]
            &&& after[last].name == before[last].name
            &&& after[last].values == before[last].values.insert(key, value)
        }),
{
    lemma_one_more_line(contents, a + key + b + seq!['='] + c + value + d);
    text::law_sides_of_a_separator_are_trimmed(a, key, b, '=', c, value, d);
}

/// A blank line and a comment change nothing, whatever the comment says, and neither does a
/// line without brackets around it that has no equals sign or no section to belong to.
pub proof fn law_other_lines_change_nothing(contents: Seq<char>, line: Seq<char>)
    requires
        !line.contains('\n'),
        ({
            let plain = text::trimmed(line);
            ||| plain.len() == 0
            ||| plain[0] == '#'
            ||| plain[0] == ';'
            ||| (plain[0] != '[' || plain[plain.len() - 1] != ']') && (!line.contains('=')
                || ini_sections(contents).len() == 0)
        }),
    ensures
        ini_sections(contents.push('\n') + line) == ini_sections(contents),
{
    lemma_one_more_line(contents, line);
    let plain = text::trimmed(line);
    text::lemma_trimmed(line);
    if !line.contains('=') {
        assert(!plain.contains('='));
        text::law_first_separator_splits(plain, '=', Seq::empty());
    }
}

/// An empty file has no sections, and a section says its name and its entries.
pub proof fn law_sections_say_what_they_hold(
    section: IniSection,
    sections: Seq<IniSection>,
    i: int,
)
    ensures
        ini_sections(Seq::empty()) == Seq::<Section>::empty(),
        section@.name == section.name@,
        section@.values == section.values@,
        views(sections).len() == sections.len(),
        0 <= i < sections.len() ==> views(sections)[i] == sections[i]@,
{
    let none = Seq::<char>::empty();
    text::lemma_split_on_single(none, '\n');
    let lines = seq![none];
    assert(lines.drop_last() == Seq::<Seq<char>>::empty());
    assert(sections_of(lines.drop_last()) == Seq::<Section>::empty());
    assert(text::trimmed(none) == none);
    assert(lines.last() == none);
    assert(sections_of(lines) == Seq::<Section>::empty());
}

} // verus!
