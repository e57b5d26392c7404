//! The linker: replaces each import by the instructions of the file it names.
//!
//! Reading a file is the caller's part. `link` goes through the instructions until it meets
//! an import of a file not linked yet, and asks for that file; `supply` hands over the file's
//! bytes, whose instructions are linked next, in place of the import. When `link` asks for
//! nothing more, `finish` gives the linked program.
use vstd::prelude::*;
use vstd::set_lib::{set_int_range, lemma_int_range, lemma_len_subset, lemma_map_size_bound};
use vstd::utf8::{valid_utf8, decode_utf8};
use crate::ast::{Inst, SpecInst, views_of_insts, lemma_views_of_insts};
use crate::parse::{parse_reporting, program, file_name, file_named, imports_named};
use crate::scan::{scan, scan_words, split_words, Token};
use crate::{NyoomError, AST};

verus! {

/// The model of a linker.
pub struct LinkModel {
    /// The instructions still to link, the next one last.
    pub stack: Seq<SpecInst>,
    /// The instructions linked so far, in order.
    pub output: Seq<SpecInst>,
    /// The files linked so far.
    pub linked: Seq<Seq<char>>,
}

/// A linking in progress.
pub struct Linker {
    stack: Vec<Inst>,
    output: Vec<Inst>,
    linked: Vec<String>,
}

impl View for Linker {
    type V = LinkModel;

    closed spec fn view(&self) -> LinkModel {
        LinkModel {
            stack: views_of_insts(self.stack@),
            output: views_of_insts(self.output@),
            linked: self.linked@.map_values(|s: String| s@),
        }
    }
}

/// Links instructions from the top of `stack` on, up to the first import of a file not in
/// `linked`: the stack and output after that, and the file asked for, if any.
pub open spec fn advance(stack: Seq<SpecInst>, output: Seq<SpecInst>, linked: Seq<Seq<char>>) -> (
    Seq<SpecInst>,
    Seq<SpecInst>,
    Option<Seq<char>>,
)
    decreases stack.len(),
{
    if stack.len() == 0 {
        (stack, output, None)
    } else {
        let rest = stack.drop_last();
        match stack.last() {
            SpecInst::Import(name) => if linked.contains(name) {
                advance(rest, output, linked)
            } else {
                (rest, output, Some(name))
            },
            inst => advance(rest, output.push(inst), linked),
        }
    }
}

/// Whether no instruction of a sequence is an import.
pub open spec fn import_free(s: Seq<SpecInst>) -> bool {
    forall|i: int| 0 <= i < s.len() ==> !(#[trigger] s[i] is Import)
}

impl Linker {
    /// A linking of `ast`, where the files in `linked` count as linked already.
    pub fn new(ast: AST, linked: Vec<String>) -> (r: Self)
        ensures
            r@.stack == views_of_insts(ast@).reverse(),
            r@.output == Seq::<SpecInst>::empty(),
            r@.linked == linked@.map_values(|s: String| s@),
    {
        let mut r = Linker { stack: Vec::new(), output: Vec::new(), linked };
        r.push_reversed(ast);
        assert(views_of_insts(r.output@) =~= Seq::<SpecInst>::empty());
        r
    }

    /// Puts the instructions of `ast` on the stack, its first instruction on top.
    fn push_reversed(&mut self, ast: AST)
        ensures
            final(self)@.stack == old(self)@.stack + views_of_insts(ast@).reverse(),
            final(self)@.output == old(self)@.output,
            final(self)@.linked == old(self)@.linked,
    {
        let ghost orig = views_of_insts(ast@);
        proof {
            lemma_views_of_insts(ast@);
        }
        let mut ast = ast;
        while ast.len() > 0
            invariant
                orig.len() >= ast@.len(),
                views_of_insts(ast@) == orig.take(ast@.len() as int),
                views_of_insts(self.stack@) == views_of_insts(old(self).stack@) + orig.skip(
                    ast@.len() as int,
                ).reverse(),
                self.output == old(self).output,
                self.linked == old(self).linked,
            decreases ast.len(),
        {
            let ghost before = ast@;
            let ghost stack_before = self.stack@;
            let inst = ast.pop().unwrap();
            proof {
                lemma_views_of_insts(before);
                lemma_views_of_insts(ast@);
                assert(views_of_insts(ast@) =~= orig.take(ast@.len() as int));
            }
            self.stack.push(inst);
            proof {
                lemma_views_of_insts(stack_before);
                lemma_views_of_insts(self.stack@);
                let k = ast@.len() as int;
                assert(before.last() == inst);
                assert(views_of_insts(before)[k] == inst@);
                assert(views_of_insts(before)[k] == orig.take(k + 1)[k]);
                assert(orig[k] == inst@);
                assert(self.stack@.drop_last() =~= stack_before);
                assert(views_of_insts(self.stack@) == views_of_insts(stack_before).push(inst@));
                assert(orig.skip(k).reverse() =~= orig.skip(k + 1).reverse().push(orig[k]));
                assert(views_of_insts(self.stack@) =~= views_of_insts(old(self).stack@) + orig.skip(
                    k,
                ).reverse());
            }
        }
        assert(orig.skip(0) =~= orig);
    }

    /// Whether a file was linked already.
    fn is_linked(&self, name: &String) -> (r: bool)
        ensures
            r == self@.linked.contains(name@),
    {
        let mut i: usize = 0;
        while i < self.linked.len()
            invariant
                i <= self.linked@.len(),
                forall|j: int| 0 <= j < i ==> self.linked@[j]@ != name@,
            decreases self.linked.len() - i,
        {
            if self.linked[i] == *name {
                assert(self@.linked[i as int] == name@);
                return true;
            }
            i = i + 1;
        }
        assert(!self@.linked.contains(name@)) by {
            if self@.linked.contains(name@) {
                let j = choose|j: int| 0 <= j < self@.linked.len() && self@.linked[j] == name@;
                assert(self.linked@[j]@ == name@);
            }
        }
        false
    }

    /// Hands over the bytes of the file that `link` asked for: its tokens and instructions,
    /// which go on the stack to be linked next, and its name, which joins the linked files.
    /// A scan error ends the linking; a parse error only ends the file early, and is
    /// returned for the caller to report.
    pub fn supply(&mut self, name: String, bytes: Vec<u8>) -> (r: Result<
        Option<NyoomError>,
        NyoomError,
    >)
        requires
            valid_utf8(bytes@),
        ensures
            match scan_words(split_words(decode_utf8(bytes@))) {
                Err(e) => r == Err::<Option<NyoomError>, NyoomError>(e) && final(self)@ == old(
                    self,
                )@,
                Ok(toks) => r == Ok::<Option<NyoomError>, NyoomError>(program(toks).1)
                    && final(self)@.stack == old(self)@.stack + program(toks).0.reverse()
                    && final(self)@.output == old(self)@.output && final(self)@.linked == old(
                    self,
                )@.linked.push(name@),
            },
    {
        let tokens = match scan(bytes) {
            Ok(t) => t,
            Err(e) => {
                return Err(e);
            },
        };
        let ghost before = self@;
        self.linked.push(name);
        assert(self@.linked =~= before.linked.push(name@));
        let (ast, error) = parse_reporting(tokens);
        self.push_reversed(ast);
        Ok(error)
    }

    /// The files linked so far, in the order they were linked.
    pub fn linked(&self) -> (r: &Vec<String>)
        ensures
            r@.map_values(|s: String| s@) == self@.linked,
    {
        &self.linked
    }

    /// The linked program.
    pub fn finish(self) -> (r: AST)
        ensures
            views_of_insts(r@) == self@.output,
    {
        self.output
    }
}

/// Links instructions up to the first import of a file not linked yet, and returns that
/// file's name; `None` when nothing is left to link.
pub fn link(linker: &mut Linker) -> (r: Option<String>)
    ensures
        ({
            let (stack, output, asked) = advance(
                old(linker)@.stack,
                old(linker)@.output,
                old(linker)@.linked,
            );
            &&& final(linker)@.stack == stack
            &&& final(linker)@.output == output
            &&& final(linker)@.linked == old(linker)@.linked
            &&& match r {
                Some(n) => asked == Some(n@),
                None => asked is None,
            }
        }),
{
    loop
        invariant
            advance(old(linker)@.stack, old(linker)@.output, old(linker)@.linked) == advance(
                linker@.stack,
                linker@.output,
                linker@.linked,
            ),
            linker@.linked == old(linker)@.linked,
        decreases linker.stack.len(),
    {
        let ghost before = linker@;
        proof {
            lemma_views_of_insts(linker.stack@);
        }
        let inst = match linker.stack.pop() {
            Some(i) => i,
            None => {
                return None;
            },
        };
        proof {
            lemma_views_of_insts(linker.stack@);
            assert(linker@.stack =~= before.stack.drop_last());
        }
        match inst {
            Inst::Import(name) => {
                if !linker.is_linked(&name) {
                    return Some(name);
                }
            },
            other => {
                let ghost out_before = linker.output@;
                linker.output.push(other);
                proof {
                    lemma_views_of_insts(out_before);
                    lemma_views_of_insts(linker.output@);
                    assert(linker@.output =~= before.output.push(other@));
                }
            },
        }
    }
}

/// Linking resolves every import: what `link` adds to the output is never an import, the
/// file it asks for is never one linked already, and when it asks for none the stack is
/// empty. What was linked before stays, first and in order.
pub proof fn law_link_resolves_imports(
    stack: Seq<SpecInst>,
    output: Seq<SpecInst>,
    linked: Seq<Seq<char>>,
)
    requires
        import_free(output),
    ensures
        ({
            let (s2, o2, asked) = advance(stack, output, linked);
            &&& import_free(o2)
            &&& output.len() <= o2.len()
            &&& o2.subrange(0, output.len() as int) == output
            &&& s2.len() <= stack.len()
            &&& match asked {
                Some(n) => !linked.contains(n),
                None => s2.len() == 0,
            }
        }),
    decreases stack.len(),
{
    if stack.len() > 0 {
        let rest = stack.drop_last();
        match stack.last() {
            SpecInst::Import(name) => {
                if linked.contains(name) {
                    law_link_resolves_imports(rest, output, linked);
                }
            },
            inst => {
                let o1 = output.push(inst);
                assert(import_free(o1)) by {
                    assert forall|i: int| 0 <= i < o1.len() implies !(#[trigger] o1[i] is Import) by {
                        if i < output.len() {
                            assert(o1[i] == output[i]);
                        }
                    }
                }
                law_link_resolves_imports(rest, o1, linked);
                let o2 = advance(rest, o1, linked).1;
                assert(o2.subrange(0, output.len() as int) =~= o1.subrange(
                    0,
                    o1.len() as int,
                ).subrange(0, output.len() as int));
            },
        }
    } else {
        assert(output.subrange(0, output.len() as int) =~= output);
    }
}

/// A linking whose bookkeeping is sound: no file is linked twice, every linked file and
/// every import still to link names a file of some number from 1 on.
pub open spec fn linking_sound(m: LinkModel) -> bool {
    &&& m.linked.no_duplicates()
    &&& forall|i: int| 0 <= i < m.linked.len() ==> file_named(#[trigger] m.linked[i])
    &&& imports_named(m.stack)
}

/// What `advance` leaves of the stack is a prefix of it.
proof fn lemma_advance_prefix(stack: Seq<SpecInst>, output: Seq<SpecInst>, linked: Seq<Seq<char>>)
    ensures
        ({
            let s2 = advance(stack, output, linked).0;
            s2.len() <= stack.len() && s2 == stack.subrange(0, s2.len() as int)
        }),
    decreases stack.len(),
{
    if stack.len() > 0 {
        let rest = stack.drop_last();
        lemma_advance_prefix(rest, output, linked);
        match stack.last() {
            SpecInst::Import(name) => {
                if linked.contains(name) {
                    let s2 = advance(rest, output, linked).0;
                    assert(s2 =~= stack.subrange(0, s2.len() as int));
                }
            },
            inst => {
                lemma_advance_prefix(rest, output.push(inst), linked);
                let s2 = advance(rest, output.push(inst), linked).0;
                assert(s2 =~= stack.subrange(0, s2.len() as int));
            },
        }
    } else {
        assert(stack =~= stack.subrange(0, 0));
    }
}

/// A linking of parsed instructions starts sound.
pub proof fn law_linking_starts_sound(insts: Seq<SpecInst>)
    requires
        imports_named(insts),
    ensures
        linking_sound(
            LinkModel {
                stack: insts.reverse(),
                output: Seq::<SpecInst>::empty(),
                linked: Seq::<Seq<char>>::empty(),
            },
        ),
{
    let r = insts.reverse();
    assert forall|i: int| 0 <= i < r.len() implies (#[trigger] r[i] matches SpecInst::Import(name)
        ==> file_named(name)) by {
        assert(r[i] == insts[insts.len() - 1 - i]);
    }
}

/// A step of `link` keeps the linking sound, and the file it asks for, if any, names a
/// file of some number from 1 on that was not linked before.
pub proof fn law_link_keeps_sound(m: LinkModel)
    requires
        linking_sound(m),
    ensures
        ({
            let (s2, o2, asked) = advance(m.stack, m.output, m.linked);
            &&& linking_sound(LinkModel { stack: s2, output: o2, linked: m.linked })
            &&& asked matches Some(n) ==> file_named(n) && !m.linked.contains(n)
        }),
    decreases m.stack.len(),
{
    lemma_advance_prefix(m.stack, m.output, m.linked);
    let s2 = advance(m.stack, m.output, m.linked).0;
    assert forall|i: int| 0 <= i < s2.len() implies (#[trigger] s2[i] matches SpecInst::Import(
        name,
    ) ==> file_named(name)) by {
        assert(s2[i] == m.stack[i]);
    }
    if m.stack.len() > 0 {
        let rest = m.stack.drop_last();
        let sub = LinkModel { stack: rest, output: m.output, linked: m.linked };
        assert forall|i: int| 0 <= i < rest.len() implies (#[trigger] rest[i] matches SpecInst::Import(
            name,
        ) ==> file_named(name)) by {
            assert(rest[i] == m.stack[i]);
        }
        match m.stack.last() {
            SpecInst::Import(name) => {
                if m.linked.contains(name) {
                    law_link_keeps_sound(sub);
                } else {
                    assert(m.stack[m.stack.len() - 1] == m.stack.last());
                }
            },
            inst => {
                law_link_keeps_sound(LinkModel { stack: rest, output: m.output.push(inst), linked: m.linked });
            },
        }
    }
}

/// Supplying the file that `link` asked for keeps the linking sound, and adds one file to
/// those linked.
pub proof fn law_supply_keeps_sound(m: LinkModel, name: Seq<char>, toks: Seq<Token>)
    requires
        linking_sound(m),
        file_named(name),
        !m.linked.contains(name),
    ensures
        linking_sound(
            LinkModel {
                stack: m.stack + program(toks).0.reverse(),
                output: m.output,
                linked: m.linked.push(name),
            },
        ),
        m.linked.push(name).len() == m.linked.len() + 1,
{
    crate::parse::law_parsed_imports_named(toks);
    let added = program(toks).0.reverse();
    let s2 = m.stack + added;
    assert forall|i: int| 0 <= i < s2.len() implies (#[trigger] s2[i] matches SpecInst::Import(
        n,
    ) ==> file_named(n)) by {
        if i < m.stack.len() {
            assert(s2[i] == m.stack[i]);
        } else {
            let k = i - m.stack.len();
            assert(s2[i] == added[k]);
            assert(added[k] == program(toks).0[program(toks).0.len() - 1 - k]);
        }
    }
    let l2 = m.linked.push(name);
    assert forall|i: int, j: int| 0 <= i < l2.len() && 0 <= j < l2.len() && i != j implies l2[i]
        != l2[j] by {
        if i < m.linked.len() && j < m.linked.len() {
        } else if i < m.linked.len() {
            assert(m.linked.contains(l2[i]));
        } else {
            assert(m.linked.contains(l2[j]));
        }
    }
    assert forall|i: int| 0 <= i < l2.len() implies file_named(#[trigger] l2[i]) by {
        if i < m.linked.len() {
            assert(l2[i] == m.linked[i]);
        }
    }
}

/// A sound linking has linked at most 65535 files: there are no more names that an import
/// can give. Since every `supply` of an asked file links one more, a linking that is driven
/// until `link` asks for nothing ends, even where files import each other in a cycle.
pub proof fn law_sound_linking_is_bounded(m: LinkModel)
    requires
        linking_sound(m),
    ensures
        m.linked.len() <= 65535,
{
    let names = set_int_range(1, 65536).map(|n: int| file_name(n as u16));
    lemma_int_range(1, 65536);
    lemma_map_size_bound(set_int_range(1, 65536), names, |n: int| file_name(n as u16));
    let linked = m.linked.to_set();
    assert forall|s: Seq<char>| linked.contains(s) implies names.contains(s) by {
        let i = choose|i: int| 0 <= i < m.linked.len() && m.linked[i] == s;
        assert(file_named(m.linked[i]));
        let n = choose|n: u16| 1 <= n && s == #[trigger] file_name(n);
        let k = n as int;
        assert(set_int_range(1, 65536).contains(k));
        assert((k as u16) == n);
        assert(names.contains(file_name(k as u16)));
    }
    lemma_len_subset(linked, names);
    m.linked.unique_seq_to_set();
}

/// Linking keeps every instruction that is not an import, in order: where nothing left to
/// link is an import, `link` moves all of it to the output, the next instruction first, and
/// asks for no file.
pub proof fn law_link_keeps_other_instructions(
    stack: Seq<SpecInst>,
    output: Seq<SpecInst>,
    linked: Seq<Seq<char>>,
)
    requires
        import_free(stack),
    ensures
        advance(stack, output, linked) == (Seq::<SpecInst>::empty(), output + stack.reverse(), None::<
            Seq<char>,
        >),
    decreases stack.len(),
{
    if stack.len() == 0 {
        assert(output + stack.reverse() =~= output);
    } else {
        let rest = stack.drop_last();
        let inst = stack.last();
        assert(!(stack[stack.len() - 1] is Import));
        assert(import_free(rest)) by {
            assert forall|i: int| 0 <= i < rest.len() implies !(#[trigger] rest[i] is Import) by {
                assert(rest[i] == stack[i]);
            }
        }
        law_link_keeps_other_instructions(rest, output.push(inst), linked);
        assert(output.push(inst) + rest.reverse() =~= output + stack.reverse());
    }
}

} // verus!
