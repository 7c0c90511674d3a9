//! EDS and DCF files as sections of key-value pairs.

use crate::text::{
    chars_of, find, find_text, number, parse_int, parse_number, same_but_case, same_ignoring_case,
    split_at_first, trim, trimmed,
};
use vstd::prelude::*;
use vstd::slice::slice_subrange;

verus! {

/// A key and its value.
#[verifier::ext_equal]
pub struct PropView {
    pub key: Seq<char>,
    pub value: Seq<char>,
}

/// A section: its name, and its properties in order.
#[verifier::ext_equal]
pub struct SectionView {
    pub name: Seq<char>,
    pub props: Seq<PropView>,
}

/// A key and its value.
pub struct Prop {
    pub key: Vec<char>,
    pub value: Vec<char>,
}

impl View for Prop {
    type V = PropView;

    open spec fn view(&self) -> PropView {
        PropView { key: self.key@, value: self.value@ }
    }
}

/// What properties say, one by one.
pub open spec fn prop_views(props: Seq<Prop>) -> Seq<PropView> {
    props.map_values(|p: Prop| p@)
}

/// A section of a file.
pub struct Section {
    pub name: Vec<char>,
    pub props: Vec<Prop>,
}

impl View for Section {
    type V = SectionView;

    open spec fn view(&self) -> SectionView {
        SectionView { name: self.name@, props: prop_views(self.props@) }
    }
}

/// What sections say, one by one.
pub open spec fn section_views(sections: Seq<Section>) -> Seq<SectionView> {
    sections.map_values(|s: Section| s@)
}

// ---- Splitting a file into sections ----

/// How far a file has been read: the sections before the current one, and the
/// name and properties of the current one. The name is empty before the first
/// section.
#[verifier::ext_equal]
pub struct Reading {
    pub done: Seq<SectionView>,
    pub name: Seq<char>,
    pub props: Seq<PropView>,
}

impl Reading {
    /// Nothing has been read yet.
    pub open spec fn start() -> Reading {
        Reading { done: Seq::empty(), name: Seq::empty(), props: Seq::empty() }
    }

    /// The current section ends.
    pub open spec fn finished(self) -> Seq<SectionView> {
        if self.name.len() > 0 {
            self.done.push(SectionView { name: self.name, props: self.props })
        } else {
            self.done
        }
    }

    /// A line is read. Empty lines, comments after a semicolon and lines
    /// without an equals sign say nothing.
    pub open spec fn line(self, line: Seq<char>) -> Reading {
        let t = trimmed(line);
        if t.len() == 0 || t[0] == ';' {
            self
        } else if t[0] == '[' && t.last() == ']' {
            Reading {
                done: self.finished(),
                name: t.subrange(1, t.len() - 1),
                props: if self.name.len() > 0 {
                    Seq::empty()
                } else {
                    self.props
                },
            }
        } else {
            match split_at_first(t, seq!['=']) {
                Some((key, value)) => Reading {
                    props: self.props.push(PropView { key: trimmed(key), value: trimmed(value) }),
                    ..self
                },
                None => self,
            }
        }
    }

    /// The lines of a text are read.
    pub open spec fn lines(self, text: Seq<char>) -> Reading
        decreases text.len(),
    {
        match find(text, seq!['\n'], 0) {
            Some(n) if 0 <= n < text.len() => self.line(text.take(n)).lines(text.skip(n + 1)),
            _ => self.line(text),
        }
    }
}

/// The sections of a file.
pub open spec fn sections_of(content: Seq<char>) -> Seq<SectionView> {
    Reading::start().lines(content).finished()
}

/// Copy some characters.
fn copy_chars(s: &[char]) -> (r: Vec<char>)
    ensures
        r@ == s@,
{
    let mut r: Vec<char> = Vec::new();
    let mut i: usize = 0;
    assert(r@ =~= s@.take(0));
    while i < s.len()
        invariant
            i <= s@.len(),
            r@ == s@.take(i as int),
        decreases s@.len() - i,
    {
        r.push(s[i]);
        i += 1;
        assert(r@ =~= s@.take(i as int));
    }
    assert(s@.take(i as int) =~= s@);
    r
}

/// Reads a file line by line.
struct Reader {
    done: Vec<Section>,
    name: Vec<char>,
    props: Vec<Prop>,
}

impl View for Reader {
    type V = Reading;

    closed spec fn view(&self) -> Reading {
        Reading {
            done: section_views(self.done@),
            name: self.name@,
            props: prop_views(self.props@),
        }
    }
}

impl Reader {
    fn end_section(&mut self)
        ensures
            final(self)@.done == old(self)@.finished(),
            final(self)@.name == old(self)@.name,
            final(self)@.props == (if old(self)@.name.len() > 0 {
                Seq::empty()
            } else {
                old(self)@.props
            }),
    {
        if self.name.len() > 0 {
            let ghost before = self.done@;
            let mut props: Vec<Prop> = Vec::new();
            std::mem::swap(&mut props, &mut self.props);
            let section = Section { name: copy_chars(self.name.as_slice()), props };
            self.done.push(section);
            assert(section_views(self.done@) =~= section_views(before).push(section@));
            assert(prop_views(self.props@) =~= Seq::<PropView>::empty());
        }
    }

    fn read_line(&mut self, line: &[char])
        ensures
            final(self)@ == old(self)@.line(line@),
    {
        let t = trim(line);
        if t.len() == 0 || t[0] == ';' {
            return ;
        }
        if t[0] == '[' && t[t.len() - 1] == ']' {
            self.end_section();
            let name = slice_subrange(t, 1, t.len() - 1);
            self.name = copy_chars(name);
            return ;
        }
        let eq: [char; 1] = ['='];
        assert(eq@ =~= seq!['=']);
        if let Some(i) = find_text(t, eq.as_slice()) {
            let key = slice_subrange(t, 0, i);
            let value = slice_subrange(t, i + 1, t.len());
            assert(key@ =~= t@.take(i as int));
            assert(value@ =~= t@.skip(i + 1));
            let ghost before = self.props@;
            let prop = Prop { key: copy_chars(trim(key)), value: copy_chars(trim(value)) };
            self.props.push(prop);
            assert(prop_views(self.props@) =~= prop_views(before).push(prop@));
        }
    }
}

/// Split a file into its sections.
pub fn parse_ini_sections(content: &[char]) -> (r: Vec<Section>)
    ensures
        section_views(r@) == sections_of(content@),
{
    let mut reader = Reader { done: Vec::new(), name: Vec::new(), props: Vec::new() };
    assert(reader@ =~= Reading::start());
    let newline: [char; 1] = ['\n'];
    assert(newline@ =~= seq!['\n']);
    let mut rest = content;
    let mut more = true;
    while more
        invariant
            newline@ == seq!['\n'],
            newline@.len() == 1,
            more ==> Reading::start().lines(content@) == reader@.lines(rest@),
            !more ==> Reading::start().lines(content@) == reader@,
        decreases rest@.len(), crate::bytes::bit(more),
    {
        match find_text(rest, newline.as_slice()) {
            Some(n) => {
                let len: usize = rest.len();
                let line = slice_subrange(rest, 0, n);
                let tail = slice_subrange(rest, n + 1, len);
                assert(line@ =~= rest@.take(n as int));
                assert(tail@ =~= rest@.skip(n + 1));
                reader.read_line(line);
                rest = tail;
            },
            None => {
                reader.read_line(rest);
                more = false;
            },
        }
    }
    reader.end_section();
    reader.done
}

// ---- Looking things up ----

/// The first section from `from` on with a name, whatever its case.
pub open spec fn section_at(sections: Seq<SectionView>, name: Seq<char>, from: int) -> Option<int>
    decreases sections.len() - from,
{
    if from < 0 || from >= sections.len() {
        None
    } else if same_but_case(sections[from].name, name) {
        Some(from)
    } else {
        section_at(sections, name, from + 1)
    }
}

/// The properties of the first section with a name.
pub open spec fn section_props(sections: Seq<SectionView>, name: Seq<char>) -> Option<
    Seq<PropView>,
> {
    match section_at(sections, name, 0) {
        Some(i) => Some(sections[i].props),
        None => None,
    }
}

/// The value of the first property from `from` on with a key, whatever its case.
pub open spec fn prop_from(props: Seq<PropView>, key: Seq<char>, from: int) -> Option<Seq<char>>
    decreases props.len() - from,
{
    if from < 0 || from >= props.len() {
        None
    } else if same_but_case(props[from].key, key) {
        Some(props[from].value)
    } else {
        prop_from(props, key, from + 1)
    }
}

/// The value of the first property with a key.
pub open spec fn prop(props: Seq<PropView>, key: Seq<char>) -> Option<Seq<char>> {
    prop_from(props, key, 0)
}

/// The number that the first property with a key stands for.
pub open spec fn int_prop(props: Seq<PropView>, key: Seq<char>) -> Option<int> {
    match prop(props, key) {
        Some(v) => crate::text::int_value(v),
        None => None,
    }
}

/// Find a section by its name.
pub fn find_section<'a>(sections: &'a Vec<Section>, name: &[char]) -> (r: Option<&'a Section>)
    ensures
        match r {
            Some(s) => section_props(section_views(sections@), name@) == Some(s@.props),
            None => section_props(section_views(sections@), name@) is None,
        },
{
    let ghost all = section_views(sections@);
    let mut i: usize = 0;
    while i < sections.len()
        invariant
            i <= sections@.len(),
            all == section_views(sections@),
            section_at(all, name@, 0) == section_at(all, name@, i as int),
        decreases sections@.len() - i,
    {
        assert(all[i as int] == sections@[i as int]@);
        if same_ignoring_case(sections[i].name.as_slice(), name) {
            return Some(&sections[i]);
        }
        i += 1;
    }
    None
}

/// Find a property by its key.
pub fn get_prop<'a>(props: &'a Vec<Prop>, key: &str) -> (r: Option<&'a Vec<char>>)
    ensures
        match r {
            Some(v) => prop(prop_views(props@), key@) == Some(v@),
            None => prop(prop_views(props@), key@) is None,
        },
{
    let k = chars_of(key);
    let ghost all = prop_views(props@);
    let mut i: usize = 0;
    while i < props.len()
        invariant
            i <= props@.len(),
            k@ == key@,
            all == prop_views(props@),
            prop(all, key@) == prop_from(all, key@, i as int),
        decreases props@.len() - i,
    {
        assert(all[i as int] == props@[i as int]@);
        if same_ignoring_case(props[i].key.as_slice(), k.as_slice()) {
            return Some(&props[i].value);
        }
        i += 1;
    }
    None
}

/// Find a property by its key, and parse it as a number.
pub fn get_int_prop(props: &Vec<Prop>, key: &str) -> (r: Option<u64>)
    ensures
        match r {
            Some(v) => int_prop(prop_views(props@), key@) == Some(v as int),
            None => int_prop(prop_views(props@), key@) is None,
        },
{
    match get_prop(props, key) {
        Some(v) => parse_int(v.as_slice()),
        None => None,
    }
}

// ---- Object sections ----

/// A letter from A to Z in lower case, any other character as it is.
pub open spec fn lower(c: char) -> char {
    if 0x41 <= c as u32 <= 0x5A {
        (c as u32 + 0x20) as char
    } else {
        c
    }
}

/// A text in lower case, as far as its letters are A to Z.
pub open spec fn lowered(s: Seq<char>) -> Seq<char> {
    s.map_values(|c: char| lower(c))
}

/// Turn a letter from A to Z into lower case.
pub fn to_lower(c: char) -> (r: char)
    ensures
        r == lower(c),
{
    let v: u32 = c as u32;
    if 0x41 <= v && v <= 0x5A {
        (v as u8 + 0x20) as char
    } else {
        c
    }
}

/// Turn a text into lower case.
pub fn lower_text(s: &[char]) -> (r: Vec<char>)
    ensures
        r@ == lowered(s@),
{
    let mut r: Vec<char> = Vec::new();
    let mut i: usize = 0;
    while i < s.len()
        invariant
            i <= s@.len(),
            r@ == lowered(s@.take(i as int)),
        decreases s@.len() - i,
    {
        r.push(to_lower(s[i]));
        i += 1;
        assert(r@ =~= lowered(s@.take(i as int)));
    }
    assert(s@.take(i as int) =~= s@);
    r
}

/// The object that a section describes: `1018` an index from 0x1000 on,
/// `1018sub4` an index and a subindex, which is hexadecimal, or else decimal.
pub open spec fn object_of(section: Seq<char>) -> Option<(u16, Option<u8>)> {
    let l = lowered(section);
    match split_at_first(l, "sub"@) {
        Some((idx, sub)) => match (number(idx, 16, 0xFFFF), sub_number(sub)) {
            (Some(i), Some(s)) => Some((i as u16, Some(s as u8))),
            _ => None,
        },
        None => match number(l, 16, 0xFFFF) {
            Some(i) if i >= 0x1000 => Some((i as u16, None)),
            _ => None,
        },
    }
}

/// A subindex: hexadecimal, or else decimal.
pub open spec fn sub_number(s: Seq<char>) -> Option<int> {
    match number(s, 16, 0xFF) {
        Some(v) => Some(v),
        None => number(s, 10, 0xFF),
    }
}

/// Find out which object a section describes, if any.
pub fn parse_section_index(section: &[char]) -> (r: Option<(u16, Option<u8>)>)
    ensures
        r == object_of(section@),
{
    let l = lower_text(section);
    let mark = chars_of("sub");
    proof {
        reveal_strlit("sub");
    }
    match find_text(l.as_slice(), mark.as_slice()) {
        Some(i) => {
            let idx = slice_subrange(l.as_slice(), 0, i);
            let sub = slice_subrange(l.as_slice(), i + 3, l.len());
            assert(idx@ =~= l@.take(i as int));
            assert(sub@ =~= l@.skip(i + 3));
            let index: u16 = match parse_number(idx, 16, 0xFFFF) {
                Some(v) => v as u16,
                None => {
                    return None;
                },
            };
            match parse_number(sub, 16, 0xFF) {
                Some(v) => Some((index, Some(v as u8))),
                None => match parse_number(sub, 10, 0xFF) {
                    Some(v) => Some((index, Some(v as u8))),
                    None => None,
                },
            }
        },
        None => match parse_number(l.as_slice(), 16, 0xFFFF) {
            Some(v) => if v >= 0x1000 {
                Some((v as u16, None))
            } else {
                None
            },
            None => None,
        },
    }
}

/// An index is that of a PDO communication or mapping parameter.
pub open spec fn in_pdo_range(index: u16) -> bool {
    0x1400 <= index <= 0x1BFF
}

/// Check if an index is a PDO communication or mapping parameter.
pub fn is_pdo_index(index: u16) -> (r: bool)
    ensures
        r == in_pdo_range(index),
{
    0x1400 <= index && index <= 0x1BFF
}

} // verus!
