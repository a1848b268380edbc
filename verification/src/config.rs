//! The build tool's configuration file: ordered `[section]` blocks of raw
//! lines, with derived views for cell declarations and cell aliases.

use vstd::prelude::*;

use crate::strmap::{key_index, keys_contain, keys_unique, StrMap};
use crate::strutil::{
    find_char, spec_find_char_from, spec_lines, spec_trim, split_lines, str_eq, str_trim,
};

verus! {

/// One named section and its raw lines.
pub struct SectionEntry {
    pub name: String,
    pub lines: Vec<String>,
}

/// An ini-like configuration: section headers in order of appearance, and for
/// each section name that has content lines, those lines in order.
pub struct BuckConfig {
    section_order: Vec<String>,
    entries: Vec<SectionEntry>,
}

/// The names of `entries`, in order.
pub open spec fn entry_names(entries: Seq<SectionEntry>) -> Seq<Seq<char>> {
    entries.map_values(|e: SectionEntry| e.name@)
}

impl View for BuckConfig {
    type V = Map<Seq<char>, Seq<Seq<char>>>;

    closed spec fn view(&self) -> Map<Seq<char>, Seq<Seq<char>>> {
        Map::new(
            |k: Seq<char>| keys_contain(entry_names(self.entries@), k),
            |k: Seq<char>| self.entries@[key_index(entry_names(self.entries@), k)].lines.deep_view(),
        )
    }
}

/// `m` with `line` appended to the section `k`, which is created when absent.
pub open spec fn spec_append_line(
    m: Map<Seq<char>, Seq<Seq<char>>>,
    k: Seq<char>,
    line: Seq<char>,
) -> Map<Seq<char>, Seq<Seq<char>>> {
    m.insert(
        k,
        if m.contains_key(k) {
            m[k].push(line)
        } else {
            seq![line]
        },
    )
}

impl BuckConfig {
    /// The section headers, in order of appearance.
    pub closed spec fn spec_order(&self) -> Seq<Seq<char>> {
        self.section_order.deep_view()
    }

    pub closed spec fn wf(&self) -> bool {
        keys_unique(entry_names(self.entries@))
    }

    /// The section names that have content lines, in entry order.
    pub closed spec fn spec_names(&self) -> Seq<Seq<char>> {
        entry_names(self.entries@)
    }

    pub proof fn lemma_view(&self)
        ensures
            forall|k: Seq<char>| self@.contains_key(k) <==> keys_contain(self.spec_names(), k),
    {
    }

    pub fn empty() -> (r: BuckConfig)
        ensures
            r.wf(),
            r@ == Map::<Seq<char>, Seq<Seq<char>>>::empty(),
            r.spec_order() == Seq::<Seq<char>>::empty(),
    {
        let r = BuckConfig { section_order: Vec::new(), entries: Vec::new() };
        proof {
            assert(entry_names(r.entries@) =~= Seq::<Seq<char>>::empty());
            assert(r.section_order.deep_view() =~= Seq::<Seq<char>>::empty());
            assert(r@ =~= Map::<Seq<char>, Seq<Seq<char>>>::empty());
        }
        r
    }

    fn entry_index(&self, name: &str) -> (r: Option<usize>)
        requires
            self.wf(),
        ensures
            match r {
                Some(i) => i < self.entries@.len() && entry_names(self.entries@)[i as int]
                    == name@,
                None => !keys_contain(entry_names(self.entries@), name@),
            },
    {
        let n = self.entries.len();
        let mut i: usize = 0;
        while i < n
            invariant
                n == self.entries@.len(),
                0 <= i <= n,
                forall|j: int| 0 <= j < i ==> entry_names(self.entries@)[j] != name@,
            decreases n - i,
        {
            proof {
                assert(entry_names(self.entries@)[i as int] == self.entries@[i as int].name@);
            }
            if str_eq(self.entries[i].name.as_str(), name) {
                return Some(i);
            }
            i += 1;
        }
        None
    }

    /// The raw lines of `name`, when that section has any.
    pub fn get_section<'a>(&'a self, name: &str) -> (r: Option<&'a Vec<String>>)
        requires
            self.wf(),
        ensures
            match r {
                Some(v) => self@.contains_key(name@) && v.deep_view() == self@[name@],
                None => !self@.contains_key(name@),
            },
    {
        proof {
            self.lemma_view();
        }
        match self.entry_index(name) {
            Some(i) => {
                proof {
                    let names = entry_names(self.entries@);
                    let j = key_index(names, name@);
                    assert(names[i as int] == name@);
                    assert(0 <= j < names.len() && names[j] == name@);
                    assert(j == i);
                }
                Some(&self.entries[i].lines)
            },
            None => None,
        }
    }

    /// Append one raw line to the section `name`, creating it when absent.
    /// The header order is not touched.
    pub fn append_section_line(&mut self, name: &str, line: String)
        requires
            old(self).wf(),
        ensures
            final(self).wf(),
            final(self)@ == spec_append_line(old(self)@, name@, line@),
            final(self).spec_order() == old(self).spec_order(),
    {
        proof {
            old(self).lemma_view();
        }
        match self.entry_index(name) {
            Some(i) => {
                let mut e = self.entries.remove(i);
                e.lines.push(line);
                self.entries.insert(i, e);
                proof {
                    let names = entry_names(self.entries@);
                    let onames = entry_names(old(self).entries@);
                    assert(self.entries@ =~= old(self).entries@.update(
                        i as int,
                        self.entries@[i as int],
                    ));
                    assert(names =~= onames);
                    assert(self.entries@[i as int].lines.deep_view() =~= old(
                        self,
                    ).entries@[i as int].lines.deep_view().push(line@));
                    assert(self@ =~= spec_append_line(old(self)@, name@, line@)) by {
                        assert forall|q: Seq<char>| self@.contains_key(q) implies self@[q]
                            == spec_append_line(old(self)@, name@, line@)[q] by {
                            let j = key_index(names, q);
                            assert(0 <= j < names.len() && names[j] == q);
                            if q == name@ {
                                assert(j == i);
                            } else {
                                assert(j != i);
                                assert(self.entries@[j] == old(self).entries@[j]);
                            }
                        }
                    }
                }
            },
            None => {
                let lines: Vec<String> = vec![line];
                self.entries.push(SectionEntry { name: name.to_owned(), lines });
                proof {
                    let onames = entry_names(old(self).entries@);
                    let names = entry_names(self.entries@);
                    assert(names =~= onames.push(name@));
                    assert(keys_unique(names)) by {
                        assert forall|a: int, b: int| 0 <= a < b < names.len() implies names[a]
                            != names[b] by {
                            if b == onames.len() {
                                assert(names[b] == name@);
                                assert(!keys_contain(onames, name@));
                            }
                        }
                    }
                    assert forall|q: Seq<char>| true implies #[trigger] keys_contain(names, q)
                        == (keys_contain(onames, q) || q == name@) by {
                        if keys_contain(names, q) {
                            let a = choose|a: int| 0 <= a < names.len() && names[a] == q;
                            if a < onames.len() {
                                assert(onames[a] == q);
                                assert(keys_contain(onames, q));
                            } else {
                                assert(q == name@);
                            }
                        }
                        if q == name@ {
                            assert(names[onames.len() as int] == name@);
                            assert(keys_contain(names, q));
                        }
                        if keys_contain(onames, q) {
                            let a = choose|a: int| 0 <= a < onames.len() && onames[a] == q;
                            assert(names[a] == q);
                            assert(keys_contain(names, q));
                        }
                    }
                    assert(self.entries@[onames.len() as int].lines.deep_view() =~= seq![line@]);
                    assert(self@ =~= spec_append_line(old(self)@, name@, line@)) by {
                        assert forall|q: Seq<char>| self@.contains_key(q) implies self@[q]
                            == spec_append_line(old(self)@, name@, line@)[q] by {
                            let j = key_index(names, q);
                            assert(0 <= j < names.len() && names[j] == q);
                            if q == name@ {
                                assert(j == onames.len());
                            } else {
                                assert(j < onames.len());
                                assert(self.entries@[j] == old(self).entries@[j]);
                            }
                        }
                    }
                }
            },
        }
    }

    /// Replace the lines of section `name` with an empty list, creating the
    /// entry when absent. The header order is not touched.
    pub fn reset_section(&mut self, name: &str)
        requires
            old(self).wf(),
        ensures
            final(self).wf(),
            final(self)@ == old(self)@.insert(name@, Seq::<Seq<char>>::empty()),
            final(self).spec_order() == old(self).spec_order(),
    {
        proof {
            old(self).lemma_view();
        }
        match self.entry_index(name) {
            Some(i) => {
                let mut e = self.entries.remove(i);
                e.lines = Vec::new();
                self.entries.insert(i, e);
                proof {
                    let names = entry_names(self.entries@);
                    let onames = entry_names(old(self).entries@);
                    assert(self.entries@ =~= old(self).entries@.update(
                        i as int,
                        self.entries@[i as int],
                    ));
                    assert(names =~= onames);
                    assert(self.entries@[i as int].lines.deep_view() =~= Seq::<Seq<char>>::empty());
                    assert(self@ =~= old(self)@.insert(name@, Seq::<Seq<char>>::empty())) by {
                        assert forall|q: Seq<char>| self@.contains_key(q) implies self@[q]
                            == old(self)@.insert(name@, Seq::<Seq<char>>::empty())[q] by {
                            let j = key_index(names, q);
                            assert(0 <= j < names.len() && names[j] == q);
                            if q == name@ {
                                assert(j == i);
                            } else {
                                assert(j != i);
                                assert(self.entries@[j] == old(self).entries@[j]);
                            }
                        }
                    }
                }
            },
            None => {
                self.entries.push(SectionEntry { name: name.to_owned(), lines: Vec::new() });
                proof {
                    let onames = entry_names(old(self).entries@);
                    let names = entry_names(self.entries@);
                    assert(names =~= onames.push(name@));
                    assert(keys_unique(names)) by {
                        assert forall|a: int, b: int| 0 <= a < b < names.len() implies names[a]
                            != names[b] by {
                            if b == onames.len() {
                                assert(names[b] == name@);
                                assert(!keys_contain(onames, name@));
                            }
                        }
                    }
                    assert forall|q: Seq<char>| true implies #[trigger] keys_contain(names, q)
                        == (keys_contain(onames, q) || q == name@) by {
                        if keys_contain(names, q) {
                            let a = choose|a: int| 0 <= a < names.len() && names[a] == q;
                            if a < onames.len() {
                                assert(onames[a] == q);
                                assert(keys_contain(onames, q));
                            } else {
                                assert(q == name@);
                            }
                        }
                        if q == name@ {
                            assert(names[onames.len() as int] == name@);
                            assert(keys_contain(names, q));
                        }
                        if keys_contain(onames, q) {
                            let a = choose|a: int| 0 <= a < onames.len() && onames[a] == q;
                            assert(names[a] == q);
                            assert(keys_contain(names, q));
                        }
                    }
                    assert(self.entries@[onames.len() as int].lines.deep_view() =~= Seq::<
                        Seq<char>,
                    >::empty());
                    assert(self@ =~= old(self)@.insert(name@, Seq::<Seq<char>>::empty())) by {
                        assert forall|q: Seq<char>| self@.contains_key(q) implies self@[q]
                            == old(self)@.insert(name@, Seq::<Seq<char>>::empty())[q] by {
                            let j = key_index(names, q);
                            assert(0 <= j < names.len() && names[j] == q);
                            if q == name@ {
                                assert(j == onames.len());
                            } else {
                                assert(j < onames.len());
                                assert(self.entries@[j] == old(self).entries@[j]);
                            }
                        }
                    }
                }
            },
        }
    }

    /// Make sure an entry for `name` exists, ready for mutation. The header
    /// order and existing lines are untouched.
    pub fn get_section_mut(&mut self, section: &str)
        requires
            old(self).wf(),
        ensures
            final(self).wf(),
            final(self)@ == if old(self)@.contains_key(section@) {
                old(self)@
            } else {
                old(self)@.insert(section@, Seq::<Seq<char>>::empty())
            },
            final(self).spec_order() == old(self).spec_order(),
    {
        proof {
            old(self).lemma_view();
        }
        if self.get_section(section).is_none() {
            self.reset_section(section);
        } else {
            proof {
                assert(self@ =~= old(self)@);
            }
        }
    }

    /// Record a new section header named `name` at the end of the order, with
    /// an empty body replacing any existing lines of that name.
    pub fn new_section(&mut self, name: &str)
        requires
            old(self).wf(),
        ensures
            final(self).wf(),
            final(self)@ == old(self)@.insert(name@, Seq::<Seq<char>>::empty()),
            final(self).spec_order() == old(self).spec_order().push(name@),
    {
        self.reset_section(name);
        self.section_order.push(name.to_owned());
        proof {
            assert(self.section_order.deep_view() =~= old(self).section_order.deep_view().push(
                name@,
            ));
        }
    }

    /// Record a new section header named `name` right after the first header
    /// named `after` (at the end when there is none), with an empty body
    /// replacing any existing lines of that name.
    pub fn new_section_after(&mut self, after: &str, name: &str)
        requires
            old(self).wf(),
        ensures
            final(self).wf(),
            final(self)@ == old(self)@.insert(name@, Seq::<Seq<char>>::empty()),
            final(self).spec_order() == match first_index_of(old(self).spec_order(), after@) {
                Some(i) => old(self).spec_order().insert(i + 1, name@),
                None => old(self).spec_order().push(name@),
            },
    {
        self.reset_section(name);
        let ghost order = self.section_order.deep_view();
        match self.find_order_index(after) {
            Some(i) => {
                proof {
                    lemma_first_index_of(order, after@);
                    assert(order.len() == self.section_order@.len());
                }
                let n = self.section_order.len();
                proof {
                    assert(i < n);
                }
                self.section_order.insert(i + 1, name.to_owned());
                proof {
                    assert(self.section_order.deep_view() =~= order.insert(i + 1, name@));
                }
            },
            None => {
                self.section_order.push(name.to_owned());
                proof {
                    assert(self.section_order.deep_view() =~= order.push(name@));
                }
            },
        }
    }

    fn find_order_index(&self, after: &str) -> (r: Option<usize>)
        ensures
            match r {
                Some(i) => first_index_of(self.spec_order(), after@) == Some(i as int),
                None => first_index_of(self.spec_order(), after@) is None,
            },
    {
        let ghost order = self.spec_order();
        let n = self.section_order.len();
        proof {
            assert(order.len() == self.section_order@.len());
        }
        let mut i: usize = 0;
        while i < n
            invariant
                n == self.section_order@.len(),
                order == self.spec_order(),
                order.len() == n,
                0 <= i <= n,
                forall|j: int| 0 <= j < i ==> order[j] != after@,
            decreases n - i,
        {
            proof {
                assert(order[i as int] == self.section_order@[i as int]@);
            }
            if str_eq(self.section_order[i].as_str(), after) {
                proof {
                    lemma_first_index_of(order, after@);
                    match first_index_of(order, after@) {
                        Some(f) => {
                            assert(order[f] == after@);
                            assert(f == i);
                        },
                        None => {
                            assert(order[i as int] == after@);
                        },
                    }
                }
                return Some(i);
            }
            i += 1;
        }
        proof {
            lemma_first_index_of(order, after@);
        }
        None
    }
}

/// The first index at which `k` occurs in `s`, if any.
pub open spec fn first_index_of(s: Seq<Seq<char>>, k: Seq<char>) -> Option<int>
    decreases s.len(),
{
    if s.len() == 0 {
        None
    } else if s[0] == k {
        Some(0)
    } else {
        match first_index_of(s.skip(1), k) {
            Some(i) => Some(i + 1),
            None => None,
        }
    }
}

pub proof fn lemma_first_index_of(s: Seq<Seq<char>>, k: Seq<char>)
    ensures
        match first_index_of(s, k) {
            Some(i) => 0 <= i < s.len() && s[i] == k && forall|j: int| 0 <= j < i ==> s[j] != k,
            None => forall|j: int| 0 <= j < s.len() ==> s[j] != k,
        },
    decreases s.len(),
{
    if s.len() > 0 && s[0] != k {
        lemma_first_index_of(s.skip(1), k);
        assert forall|j: int| 0 <= j < s.len() && s[j] == k implies j >= 1 by {}
        assert(forall|j: int| 1 <= j < s.len() ==> s[j] == s.skip(1)[j - 1]);
    }
}

} // verus!

verus! {

/// Parser state after some lines: headers seen in order, content lines per
/// section, and the section any further lines would go to.
pub struct ParseState {
    pub order: Seq<Seq<char>>,
    pub sections: Map<Seq<char>, Seq<Seq<char>>>,
    pub current: Option<Seq<char>>,
}

/// A trimmed line that declares a section, `[name]`.
pub open spec fn spec_is_header(trimmed: Seq<char>) -> bool {
    trimmed.len() >= 1 && trimmed[0] == '[' && trimmed[trimmed.len() - 1] == ']'
}

pub open spec fn spec_header_name(trimmed: Seq<char>) -> Seq<char> {
    trimmed.subrange(1, trimmed.len() - 1)
}

/// How one raw line advances the parser: a header starts a section, a `#`
/// comment is dropped, any other non-empty line joins the current section.
pub open spec fn spec_parse_step(st: ParseState, line: Seq<char>) -> ParseState {
    let trimmed = spec_trim(line);
    if spec_is_header(trimmed) {
        let name = spec_header_name(trimmed);
        ParseState { order: st.order.push(name), sections: st.sections, current: Some(name) }
    } else if trimmed.len() >= 1 && trimmed[0] == '#' {
        st
    } else if line.len() != 0 {
        match st.current {
            Some(cur) => ParseState {
                order: st.order,
                sections: spec_append_line(st.sections, cur, line),
                current: st.current,
            },
            None => st,
        }
    } else {
        st
    }
}

pub open spec fn spec_parse_lines(lines: Seq<Seq<char>>) -> ParseState
    decreases lines.len(),
{
    if lines.len() == 0 {
        ParseState {
            order: Seq::empty(),
            sections: Map::empty(),
            current: None,
        }
    } else {
        spec_parse_step(spec_parse_lines(lines.drop_last()), lines.last())
    }
}

/// The configuration that reading `contents` yields.
pub open spec fn spec_parse(contents: Seq<char>) -> ParseState {
    spec_parse_lines(spec_lines(contents))
}

/// Each line followed by a newline.
pub open spec fn spec_render_lines(lines: Seq<Seq<char>>) -> Seq<char>
    decreases lines.len(),
{
    if lines.len() == 0 {
        Seq::empty()
    } else {
        spec_render_lines(lines.drop_last()) + lines.last() + seq!['\n']
    }
}

/// One serialized section: its header, then its lines and a blank line when
/// it has content.
pub open spec fn spec_render_section(
    name: Seq<char>,
    sections: Map<Seq<char>, Seq<Seq<char>>>,
) -> Seq<char> {
    seq!['['] + name + seq![']', '\n'] + if sections.contains_key(name) {
        spec_render_lines(sections[name]) + seq!['\n']
    } else {
        Seq::empty()
    }
}

pub open spec fn spec_render_order(
    order: Seq<Seq<char>>,
    sections: Map<Seq<char>, Seq<Seq<char>>>,
) -> Seq<char>
    decreases order.len(),
{
    if order.len() == 0 {
        Seq::empty()
    } else {
        spec_render_order(order.drop_last(), sections) + spec_render_section(
            order.last(),
            sections,
        )
    }
}

/// The serialized text: all sections in header order, without the final
/// newline.
pub open spec fn spec_serialize(
    order: Seq<Seq<char>>,
    sections: Map<Seq<char>, Seq<Seq<char>>>,
) -> Seq<char> {
    let full = spec_render_order(order, sections);
    if full.len() > 0 {
        full.drop_last()
    } else {
        full
    }
}

impl BuckConfig {
    /// Read a configuration from its textual form.
    pub fn parse(contents: String) -> (r: BuckConfig)
        ensures
            r.wf(),
            r@ == spec_parse(contents@).sections,
            r.spec_order() == spec_parse(contents@).order,
    {
        let lines = split_lines(contents.as_str());
        let mut config = BuckConfig::empty();
        let mut current: Option<String> = None;
        let n = lines.len();
        proof {
            assert(lines.deep_view().len() == lines@.len());
            assert(lines.deep_view().take(0) =~= Seq::<Seq<char>>::empty());
        }
        let mut i: usize = 0;
        while i < n
            invariant
                n == lines@.len(),
                lines.deep_view() == spec_lines(contents@),
                0 <= i <= n,
                config.wf(),
                ({
                    let st = spec_parse_lines(lines.deep_view().take(i as int));
                    &&& config@ == st.sections
                    &&& config.spec_order() == st.order
                    &&& match (&current, st.current) {
                        (Some(c), Some(sc)) => c@ == sc,
                        (None, None) => true,
                        _ => false,
                    }
                }),
            decreases n - i,
        {
            let ghost st = spec_parse_lines(lines.deep_view().take(i as int));
            let ghost stepped = spec_parse_lines(lines.deep_view().take(i + 1));
            proof {
                assert(lines.deep_view().take(i + 1).drop_last() =~= lines.deep_view().take(
                    i as int,
                ));
                assert(lines.deep_view().take(i + 1).last() == lines.deep_view()[i as int]);
                assert(lines.deep_view()[i as int] == lines@[i as int]@);
            }
            let line = &lines[i];
            let trimmed = str_trim(line.as_str());
            let tlen = trimmed.unicode_len();
            if tlen >= 1 && trimmed.get_char(0) == '[' && trimmed.get_char(tlen - 1) == ']' {
                let name = trimmed.substring_char(1, tlen - 1).to_owned();
                proof {
                    assert(name@ == spec_header_name(spec_trim(line@)));
                }
                config.section_order.push(name.clone());
                current = Some(name);
                proof {
                    assert(config.section_order.deep_view() =~= st.order.push(
                        spec_header_name(spec_trim(line@)),
                    ));
                }
            } else if tlen >= 1 && trimmed.get_char(0) == '#' {
            } else if line.unicode_len() != 0 {
                match &current {
                    Some(cur) => {
                        let section = cur.clone();
                        config.append_section_line(section.as_str(), line.clone());
                    },
                    None => {},
                }
            }
            i += 1;
        }
        proof {
            assert(lines.deep_view().take(n as int) =~= lines.deep_view());
        }
        config
    }

    /// Write the configuration back out as text.
    pub fn serialize(&self) -> (r: String)
        requires
            self.wf(),
        ensures
            r@ == spec_serialize(self.spec_order(), self@),
    {
        proof {
            reveal_strlit("[");
            reveal_strlit("]\n");
            reveal_strlit("\n");
            assert(("[")@ =~= seq!['[']);
            assert(("]\n")@ =~= seq![']', '\n']);
            assert(("\n")@ =~= seq!['\n']);
        }
        let mut out = String::new();
        let n = self.section_order.len();
        proof {
            assert(self.spec_order().len() == self.section_order@.len());
            assert(self.spec_order().take(0) =~= Seq::<Seq<char>>::empty());
        }
        let mut i: usize = 0;
        while i < n
            invariant
                n == self.section_order@.len(),
                n == self.spec_order().len(),
                self.wf(),
                0 <= i <= n,
                out@ == spec_render_order(self.spec_order().take(i as int), self@),
            decreases n - i,
        {
            let ghost before = out@;
            proof {
                reveal_strlit("[");
                reveal_strlit("]\n");
                reveal_strlit("\n");
                assert(("[")@ =~= seq!['[']);
                assert(("]\n")@ =~= seq![']', '\n']);
                assert(("\n")@ =~= seq!['\n']);
                assert(self.spec_order().take(i + 1).drop_last() =~= self.spec_order().take(
                    i as int,
                ));
                assert(self.spec_order().take(i + 1).last() == self.spec_order()[i as int]);
                assert(self.spec_order()[i as int] == self.section_order@[i as int]@);
            }
            let name = &self.section_order[i];
            out.append("[");
            out.append(name.as_str());
            out.append("]\n");
            proof {
                assert(out@ =~= before + seq!['['] + self.section_order@[i as int]@ + seq![
                    ']',
                    '\n',
                ]);
            }
            match self.get_section(name.as_str()) {
                Some(lines) => {
                    let m = lines.len();
                    proof {
                        assert(lines.deep_view().len() == lines@.len());
                        assert(lines.deep_view().take(0) =~= Seq::<Seq<char>>::empty());
                        assert(out@ =~= before + seq!['['] + self.section_order@[i as int]@
                            + seq![']', '\n'] + spec_render_lines(lines.deep_view().take(0)));
                    }
                    let mut j: usize = 0;
                    while j < m
                        invariant
                            m == lines@.len(),
                            m == lines.deep_view().len(),
                            0 <= j <= m,
                            out@ == before + seq!['['] + self.section_order@[i as int]@ + seq![
                                ']',
                                '\n',
                            ] + spec_render_lines(lines.deep_view().take(j as int)),
                        decreases m - j,
                    {
                        proof {
                            reveal_strlit("\n");
                            assert(("\n")@ =~= seq!['\n']);
                            assert(lines.deep_view().take(j + 1).drop_last()
                                =~= lines.deep_view().take(j as int));
                            assert(lines.deep_view().take(j + 1).last() == lines.deep_view()[
                                j as int]);
                            assert(lines.deep_view()[j as int] == lines@[j as int]@);
                        }
                        out.append(lines[j].as_str());
                        out.append("\n");
                        proof {
                            assert(out@ =~= before + seq!['['] + self.section_order@[i as int]@
                                + seq![']', '\n'] + spec_render_lines(
                                lines.deep_view().take(j + 1),
                            ));
                        }
                        j += 1;
                    }
                    out.append("\n");
                    proof {
                        assert(lines.deep_view().take(m as int) =~= lines.deep_view());
                        assert(out@ =~= before + spec_render_section(
                            self.spec_order()[i as int],
                            self@,
                        ));
                    }
                },
                None => {
                    proof {
                        assert(out@ =~= before + spec_render_section(
                            self.spec_order()[i as int],
                            self@,
                        ));
                    }
                },
            }
            i += 1;
        }
        proof {
            assert(self.spec_order().take(n as int) =~= self.spec_order());
        }
        let len = out.as_str().unicode_len();
        if len > 0 {
            let r = out.as_str().substring_char(0, len - 1).to_owned();
            proof {
                assert(r@ =~= out@.drop_last());
            }
            r
        } else {
            out
        }
    }
}

} // verus!

verus! {

/// How one raw line of a `key = value` section advances the derived map:
/// blank lines and `#` comments are dropped, and a line with an `=` whose
/// trimmed key and value are both nonempty records that pair.
pub open spec fn spec_kv_step(
    m: Map<Seq<char>, Seq<char>>,
    line: Seq<char>,
) -> Map<Seq<char>, Seq<char>> {
    let trimmed = spec_trim(line);
    if trimmed.len() == 0 {
        m
    } else if trimmed[0] == '#' {
        m
    } else {
        match spec_find_char_from(trimmed, '=', 0) {
            Some(e) => {
                let key = spec_trim(trimmed.take(e));
                let val = spec_trim(trimmed.skip(e + 1));
                if key.len() > 0 && val.len() > 0 {
                    m.insert(key, val)
                } else {
                    m
                }
            },
            None => m,
        }
    }
}

pub open spec fn spec_kv_lines(lines: Seq<Seq<char>>) -> Map<Seq<char>, Seq<char>>
    decreases lines.len(),
{
    if lines.len() == 0 {
        Map::empty()
    } else {
        spec_kv_step(spec_kv_lines(lines.drop_last()), lines.last())
    }
}

/// The `key = value` pairs of section `name` in a configuration.
pub open spec fn spec_section_kv(
    sections: Map<Seq<char>, Seq<Seq<char>>>,
    name: Seq<char>,
) -> Map<Seq<char>, Seq<char>> {
    if sections.contains_key(name) {
        spec_kv_lines(sections[name])
    } else {
        Map::empty()
    }
}

impl BuckConfig {
    fn parse_kv_section(&self, name: &str) -> (r: StrMap)
        requires
            self.wf(),
        ensures
            r.wf(),
            r@ == spec_section_kv(self@, name@),
    {
        let mut map = StrMap::new();
        match self.get_section(name) {
            Some(lines) => {
                let n = lines.len();
                proof {
                    assert(lines.deep_view().len() == lines@.len());
                    assert(lines.deep_view().take(0) =~= Seq::<Seq<char>>::empty());
                }
                let mut i: usize = 0;
                while i < n
                    invariant
                        n == lines@.len(),
                        n == lines.deep_view().len(),
                        0 <= i <= n,
                        map.wf(),
                        map@ == spec_kv_lines(lines.deep_view().take(i as int)),
                    decreases n - i,
                {
                    proof {
                        assert(lines.deep_view().take(i + 1).drop_last()
                            =~= lines.deep_view().take(i as int));
                        assert(lines.deep_view().take(i + 1).last() == lines.deep_view()[
                            i as int]);
                        assert(lines.deep_view()[i as int] == lines@[i as int]@);
                    }
                    let trimmed = str_trim(lines[i].as_str());
                    let tlen = trimmed.unicode_len();
                    if tlen == 0 {
                    } else if trimmed.get_char(0) == '#' {
                    } else {
                        match find_char(trimmed, '=') {
                            Some(e) => {
                                proof {
                                    crate::strutil::lemma_find_char_from_props(
                                        trimmed@,
                                        '=',
                                        0,
                                    );
                                }
                                let key = str_trim(trimmed.substring_char(0, e));
                                let val = str_trim(trimmed.substring_char(e + 1, tlen));
                                proof {
                                    assert(trimmed@.subrange(0, e as int) =~= trimmed@.take(
                                        e as int,
                                    ));
                                    assert(trimmed@.subrange(e + 1, tlen as int)
                                        =~= trimmed@.skip(e + 1));
                                }
                                if key.unicode_len() > 0 && val.unicode_len() > 0 {
                                    map.insert(key.to_owned(), val.to_owned());
                                }
                            },
                            None => {},
                        }
                    }
                    i += 1;
                }
                proof {
                    assert(lines.deep_view().take(n as int) =~= lines.deep_view());
                }
            },
            None => {},
        }
        map
    }

    /// The mapping of cell names to their declared relative paths.
    pub fn parse_cells(&self) -> (r: StrMap)
        requires
            self.wf(),
        ensures
            r.wf(),
            r@ == spec_section_kv(self@, "cells"@),
    {
        self.parse_kv_section("cells")
    }

    /// The mapping of cell aliases to the cell names they stand for.
    pub fn parse_cell_aliases(&self) -> (r: StrMap)
        requires
            self.wf(),
        ensures
            r.wf(),
            r@ == spec_section_kv(self@, "cell_aliases"@),
    {
        self.parse_kv_section("cell_aliases")
    }
}

} // verus!

verus! {

use crate::pathutil::{
    components_eq, components_lt, path_has_prefix, spec_path_components, spec_path_has_prefix,
    spec_strip_path_prefix, strip_path_prefix,
};
use crate::strutil::{lemma_str_le_total, lemma_str_le_trans, spec_str_le, str_le};

/// The cell `c` is declared and its path is a prefix of `rel`.
pub open spec fn spec_cell_matches(
    cells: Map<Seq<char>, Seq<char>>,
    rel: Seq<char>,
    c: Seq<char>,
) -> bool {
    cells.contains_key(c) && spec_path_has_prefix(rel, cells[c])
}

/// The resolver prefers `c` over `d`: more declared components win, and ties
/// go to the lexicographically least cell name.
pub open spec fn spec_cell_beats(
    cells: Map<Seq<char>, Seq<char>>,
    c: Seq<char>,
    d: Seq<char>,
) -> bool {
    spec_path_components(cells[d]) < spec_path_components(cells[c]) || (spec_path_components(
        cells[d],
    ) == spec_path_components(cells[c]) && spec_str_le(c, d))
}

/// `c` matches `rel` and is preferred over every other matching cell.
pub open spec fn spec_is_best_cell(
    cells: Map<Seq<char>, Seq<char>>,
    rel: Seq<char>,
    c: Seq<char>,
) -> bool {
    spec_cell_matches(cells, rel, c) && forall|d: Seq<char>|
        #[trigger] spec_cell_matches(cells, rel, d) ==> spec_cell_beats(cells, c, d)
}

/// The owning cell of `rel`, when any declared cell matches it.
pub open spec fn spec_best_cell(cells: Map<Seq<char>, Seq<char>>, rel: Seq<char>) -> Option<
    Seq<char>,
> {
    if exists|c: Seq<char>| spec_is_best_cell(cells, rel, c) {
        Some(choose|c: Seq<char>| spec_is_best_cell(cells, rel, c))
    } else {
        None
    }
}

pub proof fn lemma_best_cell_unique(
    cells: Map<Seq<char>, Seq<char>>,
    rel: Seq<char>,
    c: Seq<char>,
)
    requires
        spec_is_best_cell(cells, rel, c),
    ensures
        spec_best_cell(cells, rel) == Some(c),
{
    let c2 = choose|x: Seq<char>| spec_is_best_cell(cells, rel, x);
    assert(spec_is_best_cell(cells, rel, c2));
    assert(spec_cell_beats(cells, c, c2));
    assert(spec_cell_beats(cells, c2, c));
    lemma_str_le_total(c, c2);
    assert(c == c2);
}

impl BuckConfig {
    /// Resolve the cell owning `path`: among the declared cells whose
    /// relative path is a prefix of `path`'s form relative to `buck2_root`,
    /// the one declaring the most path components; ties on specificity go to
    /// the lexicographically least cell name.
    pub fn find_cell_for_path(&self, path: &str, buck2_root: &str) -> (r: Option<String>)
        requires
            self.wf(),
        ensures
            ({
                let cells = spec_section_kv(self@, "cells"@);
                match r {
                    Some(c) => spec_path_has_prefix(path@, buck2_root@) && spec_best_cell(
                        cells,
                        spec_strip_path_prefix(path@, buck2_root@),
                    ) == Some(c@),
                    None => !spec_path_has_prefix(path@, buck2_root@) || spec_best_cell(
                        cells,
                        spec_strip_path_prefix(path@, buck2_root@),
                    ) is None,
                }
            }),
    {
        let cells = self.parse_cells();
        if !path_has_prefix(path, buck2_root) {
            return None;
        }
        let rel = strip_path_prefix(path, buck2_root);
        let n = cells.len();
        proof {
            cells.lemma_view();
        }
        let ghost keys = cells.spec_keys();
        let mut best: Option<usize> = None;
        let mut i: usize = 0;
        while i < n
            invariant
                cells.wf(),
                keys == cells.spec_keys(),
                n == keys.len(),
                rel@ == spec_strip_path_prefix(path@, buck2_root@),
                0 <= i <= n,
                forall|k: Seq<char>| cells@.contains_key(k) <==> crate::strmap::keys_contain(
                    keys,
                    k,
                ),
                match best {
                    Some(b) => b < i && spec_cell_matches(cells@, rel@, keys[b as int]) && forall|
                        j: int,
                    |
                        0 <= j < i && #[trigger] spec_cell_matches(cells@, rel@, keys[j])
                            ==> spec_cell_beats(cells@, keys[b as int], keys[j]),
                    None => forall|j: int| 0 <= j < i ==> !spec_cell_matches(
                        cells@,
                        rel@,
                        #[trigger] keys[j],
                    ),
                },
            decreases n - i,
        {
            let key = cells.key_at(i);
            let val = cells.val_at(i);
            if path_has_prefix(rel, val.as_str()) {
                proof {
                    assert(spec_cell_matches(cells@, rel@, keys[i as int]));
                }
                match best {
                    None => {
                        proof {
                            lemma_str_le_total(keys[i as int], keys[i as int]);
                        }
                        best = Some(i);
                    },
                    Some(b) => {
                        let bval = cells.val_at(b);
                        let bkey = cells.key_at(b);
                        let newer = components_lt(bval.as_str(), val.as_str()) || (
                        components_eq(bval.as_str(), val.as_str()) && str_le(
                            key.as_str(),
                            bkey.as_str(),
                        ));
                        if newer {
                            proof {
                                assert(spec_cell_beats(cells@, keys[i as int], keys[b as int]));
                                assert forall|j: int|
                                    0 <= j < i + 1 && #[trigger] spec_cell_matches(
                                        cells@,
                                        rel@,
                                        keys[j],
                                    ) implies spec_cell_beats(
                                    cells@,
                                    keys[i as int],
                                    keys[j],
                                ) by {
                                    if j == i {
                                        lemma_str_le_total(keys[i as int], keys[i as int]);
                                    } else {
                                        assert(spec_cell_beats(
                                            cells@,
                                            keys[b as int],
                                            keys[j],
                                        ));
                                        let ci = spec_path_components(cells@[keys[i as int]]);
                                        let cb = spec_path_components(cells@[keys[b as int]]);
                                        let cj = spec_path_components(cells@[keys[j]]);
                                        if cb == ci && cj == cb && spec_str_le(
                                            keys[b as int],
                                            keys[j],
                                        ) && spec_str_le(keys[i as int], keys[b as int]) {
                                            lemma_str_le_trans(
                                                keys[i as int],
                                                keys[b as int],
                                                keys[j],
                                            );
                                        }
                                    }
                                }
                            }
                            best = Some(i);
                        } else {
                            proof {
                                lemma_str_le_total(keys[i as int], keys[b as int]);
                                assert(spec_cell_beats(cells@, keys[b as int], keys[i as int]));
                            }
                        }
                    },
                }
            }
            i += 1;
        }
        match best {
            Some(b) => {
                let c = cells.key_at(b).clone();
                proof {
                    assert forall|d: Seq<char>| #[trigger] spec_cell_matches(
                        cells@,
                        rel@,
                        d,
                    ) implies spec_cell_beats(cells@, keys[b as int], d) by {
                        let j = choose|j: int| 0 <= j < keys.len() && keys[j] == d;
                        assert(crate::strmap::keys_contain(keys, d));
                        assert(0 <= j < keys.len() && keys[j] == d);
                        assert(spec_cell_matches(cells@, rel@, keys[j]));
                    }
                    assert(spec_is_best_cell(cells@, rel@, keys[b as int]));
                    lemma_best_cell_unique(cells@, rel@, keys[b as int]);
                }
                Some(c)
            },
            None => {
                proof {
                    if exists|x: Seq<char>| spec_is_best_cell(cells@, rel@, x) {
                        let x = choose|x: Seq<char>| spec_is_best_cell(cells@, rel@, x);
                        assert(spec_cell_matches(cells@, rel@, x));
                        assert(crate::strmap::keys_contain(keys, x));
                        let j = choose|j: int| 0 <= j < keys.len() && keys[j] == x;
                        assert(0 <= j < keys.len() && keys[j] == x);
                        assert(!spec_cell_matches(cells@, rel@, keys[j]));
                    }
                }
                None
            },
        }
    }
}

} // verus!

verus! {

/// Declare the tool's own external cell in a configuration: registers the
/// `buckal` cell, marks it as fetched over git, records the remote origin
/// `https://github.com/<repo>` with the pinned `commit_hash`, and adds the
/// project ignore list.
pub fn init_buckal_cell(config: &mut BuckConfig, repo: &str, commit_hash: &str)
    requires
        old(config).wf(),
    ensures
        final(config).wf(),
        final(config)@ == ({
            let origin_line = "  git_origin = https://github.com/"@ + repo@;
            let commit_line = "  commit_hash = "@ + commit_hash@;
            let m1 = spec_append_line(old(config)@, "cells"@, "  buckal = buckal"@);
            let m2 = spec_append_line(m1, "external_cells"@, "  buckal = git"@);
            let m3 = m2.insert("external_cell_buckal"@, seq![origin_line, commit_line]);
            m3.insert("project"@, seq!["  ignore = .git .buckal buck-out target"@])
        }),
        final(config).spec_order() == ({
            let o1 = match first_index_of(old(config).spec_order(), "external_cells"@) {
                Some(i) => old(config).spec_order().insert(i + 1, "external_cell_buckal"@),
                None => old(config).spec_order().push("external_cell_buckal"@),
            };
            o1.push("project"@)
        }),
{
    config.get_section_mut("cells");
    config.append_section_line("cells", "  buckal = buckal".to_owned());
    config.get_section_mut("external_cells");
    config.append_section_line("external_cells", "  buckal = git".to_owned());
    config.new_section_after("external_cells", "external_cell_buckal");
    let mut origin_line = String::from_str("  git_origin = https://github.com/");
    origin_line.append(repo);
    config.append_section_line("external_cell_buckal", origin_line);
    let mut commit_line = String::from_str("  commit_hash = ");
    commit_line.append(commit_hash);
    config.append_section_line("external_cell_buckal", commit_line);
    config.new_section("project");
    config.append_section_line("project", "  ignore = .git .buckal buck-out target".to_owned());
    proof {
        let origin = "  git_origin = https://github.com/"@ + repo@;
        let commit = "  commit_hash = "@ + commit_hash@;
        let m1 = spec_append_line(old(config)@, "cells"@, "  buckal = buckal"@);
        let m2 = spec_append_line(m1, "external_cells"@, "  buckal = git"@);
        let m3 = m2.insert("external_cell_buckal"@, seq![origin, commit]);
        let m4 = m3.insert("project"@, seq!["  ignore = .git .buckal buck-out target"@]);
        assert(Seq::<Seq<char>>::empty().push(origin).push(commit) =~= seq![origin, commit]);
        assert(Seq::<Seq<char>>::empty().push(
            "  ignore = .git .buckal buck-out target"@,
        ) =~= seq!["  ignore = .git .buckal buck-out target"@]);
        assert(config@ =~= m4);
    }
}

/// Refresh the tool's external-cell pin in a configuration: the section body
/// is replaced by the remote origin `https://github.com/<repo>` and the new
/// `commit_hash`.
pub fn fetch_buckal_cell(config: &mut BuckConfig, repo: &str, commit_hash: &str)
    requires
        old(config).wf(),
    ensures
        final(config).wf(),
        final(config)@ == ({
            let origin_line = "  git_origin = https://github.com/"@ + repo@;
            let commit_line = "  commit_hash = "@ + commit_hash@;
            old(config)@.insert("external_cell_buckal"@, seq![origin_line, commit_line])
        }),
        final(config).spec_order() == old(config).spec_order(),
{
    config.reset_section("external_cell_buckal");
    let mut origin_line = String::from_str("  git_origin = https://github.com/");
    origin_line.append(repo);
    config.append_section_line("external_cell_buckal", origin_line);
    let mut commit_line = String::from_str("  commit_hash = ");
    commit_line.append(commit_hash);
    config.append_section_line("external_cell_buckal", commit_line);
    proof {
        let origin = "  git_origin = https://github.com/"@ + repo@;
        let commit = "  commit_hash = "@ + commit_hash@;
        assert(Seq::<Seq<char>>::empty().push(origin).push(commit) =~= seq![origin, commit]);
        assert(config@ =~= old(config)@.insert("external_cell_buckal"@, seq![origin, commit]));
    }
}

} // verus!
