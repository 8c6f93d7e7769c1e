use vstd::prelude::*;

use crate::text::strings_view;

verus! {

/// An assembly program: its data, bss and text sections, then the labelled
/// sections of code, one per function.
#[derive(Debug)]
pub struct ASM {
    pub section_data: Vec<String>,
    pub section_bss: Vec<String>,
    pub section_text: Vec<String>,
    pub sections_code: Vec<SectionCode>,
}

/// A labelled section of code: its label line and its instructions.
#[derive(Debug)]
pub struct SectionCode {
    pub name: String,
    pub code: Vec<String>,
}

/// What a section of code holds.
pub struct SectionView {
    pub name: Seq<char>,
    pub code: Seq<Seq<char>>,
}

/// What an assembly program holds.
pub struct AssemblyView {
    pub data: Seq<Seq<char>>,
    pub bss: Seq<Seq<char>>,
    pub text: Seq<Seq<char>>,
    pub sections: Seq<SectionView>,
}

impl View for SectionCode {
    type V = SectionView;

    open spec fn view(&self) -> SectionView {
        SectionView { name: self.name@, code: strings_view(self.code@) }
    }
}

/// The views of a sequence of sections.
pub open spec fn sections_view(s: Seq<SectionCode>) -> Seq<SectionView> {
    s.map_values(|c: SectionCode| c@)
}

impl View for ASM {
    type V = AssemblyView;

    open spec fn view(&self) -> AssemblyView {
        AssemblyView {
            data: strings_view(self.section_data@),
            bss: strings_view(self.section_bss@),
            text: strings_view(self.section_text@),
            sections: sections_view(self.sections_code@),
        }
    }
}

/// The lines of a section: its label, its instructions and a blank line.
pub open spec fn section_lines(s: SectionView) -> Seq<Seq<char>> {
    seq![s.name] + s.code + seq![Seq::<char>::empty()]
}

/// The lines of sections, in order.
pub open spec fn sections_lines(ss: Seq<SectionView>) -> Seq<Seq<char>>
    decreases ss.len(),
{
    if ss.len() == 0 {
        Seq::empty()
    } else {
        sections_lines(ss.drop_last()) + section_lines(ss.last())
    }
}

/// The lines of a program: the data, bss and text sections, each followed
/// by a blank line, then each section of code.
pub open spec fn program_lines(a: AssemblyView) -> Seq<Seq<char>> {
    a.data + seq![Seq::<char>::empty()] + a.bss + seq![Seq::<char>::empty()] + a.text + seq![
        Seq::<char>::empty(),
    ] + sections_lines(a.sections)
}

/// Lines joined into one text, with `sep` between each two of them.
pub open spec fn join_with(lines: Seq<Seq<char>>, sep: Seq<char>) -> Seq<char>
    decreases lines.len(),
{
    if lines.len() == 0 {
        Seq::empty()
    } else if lines.len() == 1 {
        lines[0]
    } else {
        join_with(lines.drop_last(), sep) + sep + lines.last()
    }
}

/// Appends copies of `lines` to `out`.
fn push_copies(out: &mut Vec<String>, lines: &Vec<String>)
    ensures
        strings_view(final(out)@) == strings_view(old(out)@) + strings_view(lines@),
{
    let mut i: usize = 0;
    while i < lines.len()
        invariant
            i <= lines@.len(),
            strings_view(out@) == strings_view(old(out)@) + strings_view(lines@.take(i as int)),
        decreases lines.len() - i,
    {
        let ghost before = out@;
        out.push(lines[i].clone());
        assert(strings_view(out@) =~= strings_view(before).push(lines@[i as int]@));
        assert(strings_view(lines@.take(i + 1)) =~= strings_view(lines@.take(i as int)).push(
            lines@[i as int]@,
        ));
        i += 1;
    }
    assert(lines@.take(lines@.len() as int) =~= lines@);
}

/// Appends an empty line to `out`.
fn push_blank(out: &mut Vec<String>)
    ensures
        strings_view(final(out)@) == strings_view(old(out)@) + seq![Seq::<char>::empty()],
{
    let ghost before = out@;
    out.push(String::new());
    assert(strings_view(out@) =~= strings_view(before) + seq![Seq::<char>::empty()]);
}

/// The lines joined into one text, with `separator` between each two.
fn join_lines(lines: &Vec<String>, separator: &str) -> (res: String)
    ensures
        res@ == join_with(strings_view(lines@), separator@),
{
    let mut res = String::new();
    let mut i: usize = 0;
    assert(strings_view(lines@.take(0)) =~= Seq::<Seq<char>>::empty());
    while i < lines.len()
        invariant
            i <= lines@.len(),
            res@ == join_with(strings_view(lines@.take(i as int)), separator@),
        decreases lines.len() - i,
    {
        let ghost prev = strings_view(lines@.take(i as int));
        if i > 0 {
            res.append(separator);
        }
        res.append(lines[i].as_str());
        proof {
            let next = strings_view(lines@.take(i + 1));
            assert(next =~= prev.push(lines@[i as int]@));
            assert(next.drop_last() =~= prev);
            if i == 0 {
                assert(res@ =~= lines@[0]@);
            } else {
                assert(res@ =~= join_with(prev, separator@) + separator@ + lines@[i as int]@);
            }
        }
        i += 1;
    }
    assert(lines@.take(lines@.len() as int) =~= lines@);
    res
}

impl ASM {
    /// An empty program.
    pub fn new() -> (a: ASM)
        ensures
            a@ == (AssemblyView {
                data: Seq::empty(),
                bss: Seq::empty(),
                text: Seq::empty(),
                sections: Seq::empty(),
            }),
    {
        let a = ASM {
            section_data: Vec::new(),
            section_bss: Vec::new(),
            section_text: Vec::new(),
            sections_code: Vec::new(),
        };
        assert(a@.data =~= Seq::empty());
        assert(a@.bss =~= Seq::empty());
        assert(a@.text =~= Seq::empty());
        assert(a@.sections =~= Seq::empty());
        a
    }

    /// The program's text: its lines, as `program_lines` lists them, joined
    /// with `separator`.
    pub fn join(&self, separator: &str) -> (res: String)
        ensures
            res@ == join_with(program_lines(self@), separator@),
    {
        let mut lines: Vec<String> = Vec::new();
        assert(strings_view(lines@) =~= Seq::<Seq<char>>::empty());
        push_copies(&mut lines, &self.section_data);
        push_blank(&mut lines);
        push_copies(&mut lines, &self.section_bss);
        push_blank(&mut lines);
        push_copies(&mut lines, &self.section_text);
        push_blank(&mut lines);
        let ghost head = strings_view(lines@);
        assert(head =~= self@.data + seq![Seq::<char>::empty()] + self@.bss + seq![Seq::<char>::empty()] + self@.text + seq![Seq::<char>::empty()]);
        let mut k: usize = 0;
        assert(sections_view(self.sections_code@.take(0)) =~= Seq::<SectionView>::empty());
        while k < self.sections_code.len()
            invariant
                k <= self.sections_code@.len(),
                strings_view(lines@) == head + sections_lines(sections_view(self.sections_code@.take(k as int))),
            decreases self.sections_code.len() - k,
        {
            let section = &self.sections_code[k];
            let ghost before = strings_view(lines@);
            let ghost prev = sections_view(self.sections_code@.take(k as int));
            lines.push(section.name.clone());
            assert(strings_view(lines@) =~= before + seq![section.name@]);
            push_copies(&mut lines, &section.code);
            push_blank(&mut lines);
            proof {
                let next = sections_view(self.sections_code@.take(k + 1));
                assert(next =~= prev.push(section@));
                assert(next.drop_last() =~= prev);
                assert(strings_view(lines@) =~= head + sections_lines(prev) + section_lines(section@));
            }
            k += 1;
        }
        assert(self.sections_code@.take(self.sections_code@.len() as int) =~= self.sections_code@);
        join_lines(&lines, separator)
    }
}

impl SectionCode {
    /// An empty section labelled `name`.
    pub fn new(name: String) -> (s: SectionCode)
        ensures
            s@ == (SectionView { name: name@, code: Seq::empty() }),
    {
        let s = SectionCode { name, code: Vec::new() };
        assert(s@.code =~= Seq::empty());
        s
    }
}

} // verus!
