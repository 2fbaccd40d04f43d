//! Reading an assembly source: labels, the `.asciiz` and `.word` data
//! directives laid out in data memory, and the instruction lines.
use vstd::prelude::*;
use vstd::slice::slice_to_vec;

use crate::labels::LabelTable;
use crate::machine::Program;
use crate::memory::{Memory, MEMORY_SIZE};
use crate::number::{parse_imm_signed, signed_immediate_value};
use crate::text::{
    chars_of, same_text, split_by, split_on, split_once_space, split_once_whitespace,
    strip_leading, strip_trailing, trim, trim_end_matching, trim_start_matching, trimmed, views,
    CharSet,
};

verus! {

/// Why reading a source cannot go on.
#[derive(Clone, Copy)]
pub enum AsmFault {
    /// Data would be written at this index, past data memory.
    MemoryIndex(usize),
    /// The next data address does not fit in a `usize`.
    AddressOverflow,
}

/// The state of reading a source.
pub struct AsmState {
    /// Instruction lines so far.
    pub lines: Seq<Seq<char>>,
    pub mem: Seq<u8>,
    /// Where the next data item goes.
    pub data_address: int,
    /// Label lines waiting for the line they name.
    pub queued: Seq<Seq<char>>,
    pub labels: Map<Seq<char>, usize>,
    /// Unknown data directives, in the order met.
    pub unknown: Seq<Seq<char>>,
    pub fault: Option<AsmFault>,
}

/// A label line defines this name: the line without its trailing ':'s.
pub open spec fn label_name(line: Seq<char>) -> Seq<char> {
    strip_trailing(line, CharSet::Just(':'))
}

pub open spec fn is_label_line(line: Seq<char>) -> bool {
    line.len() > 0 && line.last() == ':'
}

pub open spec fn is_data_line(line: Seq<char>) -> bool {
    line.len() > 0 && line[0] == '.'
}

/// A line that takes part: not blank after trimming, not a "//" comment.
pub open spec fn is_kept(line: Seq<char>) -> bool {
    line.len() > 0 && !(line.len() >= 2 && line[0] == '/' && line[1] == '/')
}

/// A data line's directive and its trimmed value.
pub open spec fn directive_parts(line: Seq<char>) -> (Seq<char>, Seq<char>) {
    match split_once_space(line) {
        Some((d, v)) => (d, trimmed(v)),
        None => (Seq::<char>::empty(), Seq::<char>::empty()),
    }
}

/// The text of an `.asciiz` value: its surrounding '"'s removed.
pub open spec fn string_text(value: Seq<char>) -> Seq<char> {
    strip_trailing(strip_leading(value, CharSet::Just('"')), CharSet::Just('"'))
}

/// Each character cut to its low 8 bits, as `char as u8` does.
pub open spec fn ascii_bytes(text: Seq<char>) -> Seq<u8> {
    text.map_values(|c: char| ((c as u32) % 0x100) as u8)
}

/// A word's four bytes, least significant first.
pub open spec fn word_bytes(v: i32) -> Seq<u8> {
    let w = v as u32;
    seq![
        (w % 0x100) as u8,
        ((w / 0x100) % 0x100) as u8,
        ((w / 0x1_0000) % 0x100) as u8,
        (w / 0x100_0000) as u8,
    ]
}

/// The bytes of the comma-separated decimal words of a `.word` value; an
/// element that does not read as an `i32` is 0.
pub open spec fn words_bytes(elements: Seq<Seq<char>>) -> Seq<u8>
    decreases elements.len(),
{
    if elements.len() == 0 {
        Seq::empty()
    } else {
        words_bytes(elements.drop_last()) + word_bytes(
            signed_immediate_value(trimmed(elements.last())),
        )
    }
}

/// `mem` with `bytes` written from `base` on.
pub open spec fn write_block(mem: Seq<u8>, base: int, bytes: Seq<u8>) -> Seq<u8> {
    Seq::new(
        mem.len(),
        |i: int|
            if base <= i < base + bytes.len() {
                bytes[i - base]
            } else {
                mem[i]
            },
    )
}

/// Lays `bytes` out at `base` and names `base` by the label, then moves the
/// data address to `next`.
pub open spec fn place(st: AsmState, label: Seq<char>, base: int, bytes: Seq<u8>, next: int) -> AsmState {
    if bytes.len() > 0 && base + bytes.len() > MEMORY_SIZE {
        AsmState {
            fault: Some(
                AsmFault::MemoryIndex(
                    if base >= MEMORY_SIZE {
                        base as usize
                    } else {
                        MEMORY_SIZE
                    },
                ),
            ),
            ..st
        }
    } else if next > usize::MAX {
        AsmState { fault: Some(AsmFault::AddressOverflow), ..st }
    } else {
        AsmState {
            mem: write_block(st.mem, base, bytes),
            labels: st.labels.insert(label_name(label), base as usize),
            data_address: next,
            ..st
        }
    }
}

/// `.asciiz "text"`: the bytes, then a zero byte left as it is.
pub open spec fn place_string(st: AsmState, label: Seq<char>, value: Seq<char>) -> AsmState {
    let bytes = ascii_bytes(string_text(value));
    place(st, label, st.data_address, bytes, st.data_address + bytes.len() + 1)
}

/// The data address rounded up to a multiple of 4.
pub open spec fn aligned_address(a: int) -> int {
    if a % 4 != 0 {
        a + 4 - a % 4
    } else {
        a
    }
}

/// `.word a, b, ...`: words at the next multiple of 4.
pub open spec fn place_words(st: AsmState, label: Seq<char>, value: Seq<char>) -> AsmState {
    let base = aligned_address(st.data_address);
    if st.data_address % 4 != 0 && st.data_address + 4 > usize::MAX {
        AsmState { fault: Some(AsmFault::AddressOverflow), ..st }
    } else {
        let bytes = words_bytes(split_on(value, ','));
        place(AsmState { data_address: base, ..st }, label, base, bytes, base + bytes.len())
    }
}

/// The queued labels, last queued first, take `line`: an instruction line's
/// index, or a data line's item. An unknown directive ends this, dropping the
/// label it was taken for and keeping the rest queued.
pub open spec fn drain(st: AsmState, line: Seq<char>) -> AsmState
    decreases st.queued.len(),
{
    if st.queued.len() == 0 || st.fault is Some {
        st
    } else {
        let label = st.queued.last();
        let st1 = AsmState { queued: st.queued.drop_last(), ..st };
        if is_data_line(line) {
            let (directive, value) = directive_parts(line);
            if directive == ".asciiz"@ {
                drain(place_string(st1, label, value), line)
            } else if directive == ".word"@ {
                drain(place_words(st1, label, value), line)
            } else {
                AsmState { unknown: st1.unknown.push(directive), ..st1 }
            }
        } else {
            drain(
                AsmState {
                    labels: st1.labels.insert(label_name(label), st1.lines.len() as usize),
                    ..st1
                },
                line,
            )
        }
    }
}

/// One trimmed, kept line.
pub open spec fn read_line(st: AsmState, line: Seq<char>) -> AsmState {
    if st.fault is Some {
        st
    } else if is_label_line(line) {
        AsmState { queued: st.queued.push(line), ..st }
    } else {
        let st2 = drain(st, line);
        if !is_data_line(line) && st2.fault is None {
            AsmState { lines: st2.lines.push(line), ..st2 }
        } else {
            st2
        }
    }
}

pub open spec fn initial_state() -> AsmState {
    AsmState {
        lines: Seq::empty(),
        mem: Seq::new(MEMORY_SIZE as nat, |i: int| 0u8),
        data_address: 0,
        queued: Seq::empty(),
        labels: Map::empty(),
        unknown: Seq::empty(),
        fault: None,
    }
}

/// Reading the lines of a source one by one: each trimmed, blank lines and
/// "//" comments skipped.
pub open spec fn read_lines(pieces: Seq<Seq<char>>) -> AsmState
    decreases pieces.len(),
{
    if pieces.len() == 0 {
        initial_state()
    } else {
        let st = read_lines(pieces.drop_last());
        let line = trimmed(pieces.last());
        if is_kept(line) {
            read_line(st, line)
        } else {
            st
        }
    }
}

/// Reading a whole source, split at line feeds.
pub open spec fn assemble_spec(source: Seq<char>) -> AsmState {
    read_lines(split_on(source, '\n'))
}

/// What reading a source gives: the program, the initial data memory, the
/// unknown directives met, and the fault that stopped the reading, if any.
pub struct Assembly {
    pub program: Program,
    pub memory: Memory,
    pub unknown_directives: Vec<Vec<char>>,
    pub fault: Option<AsmFault>,
}

/// Whether `r` holds what reading left in `st`.
pub open spec fn assembly_matches(r: Assembly, st: AsmState) -> bool {
    &&& r.program@.lines == st.lines
    &&& r.program@.labels == st.labels
    &&& r.memory@ == st.mem
    &&& views(r.unknown_directives@) == st.unknown
    &&& r.fault == st.fault
}

proof fn lemma_views_drop_last(v: Seq<Vec<char>>)
    requires
        v.len() > 0,
    ensures
        views(v.drop_last()) =~= views(v).drop_last(),
{
}

/// A source being read.
struct Reader {
    lines: Vec<Vec<char>>,
    memory: Memory,
    data_address: usize,
    queued: Vec<Vec<char>>,
    labels: LabelTable,
    unknown: Vec<Vec<char>>,
    fault: Option<AsmFault>,
}

impl Reader {
    spec fn state(&self) -> AsmState {
        AsmState {
            lines: views(self.lines@),
            mem: self.memory@,
            data_address: self.data_address as int,
            queued: views(self.queued@),
            labels: self.labels@,
            unknown: views(self.unknown@),
            fault: self.fault,
        }
    }

    fn new() -> (r: Self)
        ensures
            r.state() == initial_state(),
    {
        let r = Reader {
            lines: Vec::new(),
            memory: Memory::new(),
            data_address: 0,
            queued: Vec::new(),
            labels: LabelTable::new(),
            unknown: Vec::new(),
            fault: None,
        };
        proof {
            assert(r.state().mem =~= initial_state().mem);
            assert(r.state().lines =~= initial_state().lines);
            assert(r.state().queued =~= initial_state().queued);
            assert(r.state().unknown =~= initial_state().unknown);
        }
        r
    }

    /// Writes `bytes` at `base` and names `base` by the label, as `place`
    /// says, with the next data address `base + bytes.len() + extra`.
    fn place(&mut self, label: &[char], base: usize, bytes: &Vec<u8>, extra: usize)
        requires
            old(self).memory@.len() == MEMORY_SIZE,
            extra <= 1,
        ensures
            final(self).state() == place(
                old(self).state(),
                label@,
                base as int,
                bytes@,
                base + bytes@.len() + extra,
            ),
    {
        let n = bytes.len();
        if n > 0 && (base >= MEMORY_SIZE || n > MEMORY_SIZE - base) {
            let at = if base >= MEMORY_SIZE {
                base
            } else {
                MEMORY_SIZE
            };
            self.fault = Some(AsmFault::MemoryIndex(at));
            return;
        }
        let next = match base.checked_add(n) {
            Some(t) => t.checked_add(extra),
            None => None,
        };
        let next = match next {
            Some(t) => t,
            None => {
                self.fault = Some(AsmFault::AddressOverflow);
                return;
            },
        };
        let ghost old_mem = self.memory@;
        let mut k: usize = 0;
        while k < n
            invariant
                n == bytes@.len(),
                k <= n,
                n > 0 ==> base + n <= MEMORY_SIZE,
                old_mem.len() == MEMORY_SIZE,
                self.memory@ == write_block(old_mem, base as int, bytes@.take(k as int)),
                self.state() == (AsmState { mem: self.memory@, ..old(self).state() }),
            decreases n - k,
        {
            self.memory.set(base + k, bytes[k]);
            proof {
                assert(self.memory@ =~= write_block(old_mem, base as int, bytes@.take(k + 1)));
            }
            k = k + 1;
        }
        proof {
            assert(bytes@.take(n as int) =~= bytes@);
        }
        let name = trim_end_matching(label, CharSet::Just(':'));
        self.labels.insert(name, base);
        self.data_address = next;
        proof {
            let st = old(self).state();
            let expected = AsmState {
                mem: write_block(st.mem, base as int, bytes@),
                labels: st.labels.insert(label_name(label@), base as usize),
                data_address: next as int,
                ..st
            };
            assert(self.state().mem =~= expected.mem);
            assert(self.state().labels =~= expected.labels);
            assert(self.state() == expected);
        }
    }

    /// `.asciiz`, as `place_string` says.
    fn place_string(&mut self, label: &[char], value: &[char])
        requires
            old(self).memory@.len() == MEMORY_SIZE,
        ensures
            final(self).state() == place_string(old(self).state(), label@, value@),
    {
        let inner = trim_start_matching(value, CharSet::Just('"'));
        let text = trim_end_matching(inner.as_slice(), CharSet::Just('"'));
        let mut bytes: Vec<u8> = Vec::new();
        let mut i: usize = 0;
        while i < text.len()
            invariant
                i <= text@.len(),
                bytes@ =~= ascii_bytes(text@.take(i as int)),
            decreases text@.len() - i,
        {
            let c = text[i];
            bytes.push(((c as u32) % 0x100) as u8);
            i = i + 1;
        }
        proof {
            assert(text@.take(text@.len() as int) =~= text@);
        }
        let base = self.data_address;
        self.place(label, base, &bytes, 1);
    }

    /// `.word`, as `place_words` says.
    fn place_words(&mut self, label: &[char], value: &[char])
        requires
            old(self).memory@.len() == MEMORY_SIZE,
        ensures
            final(self).state() == place_words(old(self).state(), label@, value@),
    {
        let da = self.data_address;
        let base = if da % 4 != 0 {
            match da.checked_add(4) {
                Some(t) => t - da % 4,
                None => {
                    self.fault = Some(AsmFault::AddressOverflow);
                    return;
                },
            }
        } else {
            da
        };
        self.data_address = base;
        let elements = split_by(value, ',');
        let mut bytes: Vec<u8> = Vec::new();
        let mut i: usize = 0;
        while i < elements.len()
            invariant
                i <= elements@.len(),
                bytes@ == words_bytes(views(elements@).take(i as int)),
            decreases elements@.len() - i,
        {
            let e = trim(elements[i].as_slice());
            let w = parse_imm_signed(e.as_slice()) as u32;
            bytes.push((w % 0x100) as u8);
            bytes.push(((w / 0x100) % 0x100) as u8);
            bytes.push(((w / 0x1_0000) % 0x100) as u8);
            bytes.push((w / 0x100_0000) as u8);
            proof {
                let es = views(elements@);
                assert(es.take(i + 1).drop_last() =~= es.take(i as int));
                assert(bytes@ =~= words_bytes(es.take(i as int)) + word_bytes(
                    signed_immediate_value(trimmed(es[i as int])),
                ));
            }
            i = i + 1;
        }
        proof {
            assert(views(elements@).take(elements@.len() as int) =~= views(elements@));
        }
        self.place(label, base, &bytes, 0);
    }

    /// The queued labels take `line`, as `drain` says.
    fn drain(&mut self, line: &[char])
        requires
            old(self).memory@.len() == MEMORY_SIZE,
        ensures
            final(self).state() == drain(old(self).state(), line@),
            final(self).memory@.len() == MEMORY_SIZE,
    {
        let data = line.len() > 0 && line[0] == '.';
        let (directive, value) = match split_once_whitespace(line) {
            Some((d, v)) => (d, trim(v.as_slice())),
            None => (Vec::new(), Vec::new()),
        };
        proof {
            assert((directive@, value@) == directive_parts(line@));
        }
        let mut stopped = false;
        while !stopped && self.queued.len() > 0 && self.fault.is_none()
            invariant
                self.memory@.len() == MEMORY_SIZE,
                data == is_data_line(line@),
                (directive@, value@) == directive_parts(line@),
                !stopped ==> drain(old(self).state(), line@) == drain(self.state(), line@),
                stopped ==> self.state() == drain(old(self).state(), line@),
            decreases self.queued@.len(),
        {
            let ghost qv = self.queued@;
            let label = self.queued.pop().unwrap();
            proof {
                lemma_views_drop_last(qv);
            }
            if data {
                if same_text(directive.as_slice(), ".asciiz") {
                    self.place_string(label.as_slice(), value.as_slice());
                } else if same_text(directive.as_slice(), ".word") {
                    self.place_words(label.as_slice(), value.as_slice());
                } else {
                    let ghost u = self.unknown@;
                    self.unknown.push(slice_to_vec(directive.as_slice()));
                    proof {
                        assert(views(self.unknown@) =~= views(u).push(directive@));
                    }
                    stopped = true;
                }
            } else {
                let name = trim_end_matching(label.as_slice(), CharSet::Just(':'));
                self.labels.insert(name, self.lines.len());
            }
        }
    }

    /// One trimmed, kept line, as `read_line` says.
    fn read_line(&mut self, line: Vec<char>)
        requires
            old(self).memory@.len() == MEMORY_SIZE,
        ensures
            final(self).state() == read_line(old(self).state(), line@),
            final(self).memory@.len() == MEMORY_SIZE,
    {
        if self.fault.is_some() {
            return;
        }
        let n = line.len();
        if n > 0 && line[n - 1] == ':' {
            let ghost q = self.queued@;
            self.queued.push(line);
            proof {
                assert(views(self.queued@) =~= views(q).push(line@));
            }
            return;
        }
        self.drain(line.as_slice());
        let data = n > 0 && line[0] == '.';
        if !data && self.fault.is_none() {
            let ghost l = self.lines@;
            let ghost lv = line@;
            self.lines.push(line);
            proof {
                assert(views(self.lines@) =~= views(l).push(lv));
            }
        }
    }
}

/// Reads an assembly source: each line trimmed, blank lines and "//" comments
/// skipped; label lines queued for the next other line, which gives them its
/// instruction index or, for `.asciiz` and `.word`, the data address of its
/// item; instruction lines collected in order.
pub fn assemble(source: &str) -> (r: Assembly)
    ensures
        assembly_matches(r, assemble_spec(source@)),
{
    let text = chars_of(source);
    let pieces = split_by(text.as_slice(), '\n');
    let mut reader = Reader::new();
    let mut i: usize = 0;
    while i < pieces.len()
        invariant
            i <= pieces@.len(),
            reader.memory@.len() == MEMORY_SIZE,
            reader.state() == read_lines(views(pieces@).take(i as int)),
        decreases pieces@.len() - i,
    {
        let line = trim(pieces[i].as_slice());
        let n = line.len();
        let kept = n > 0 && !(n >= 2 && line[0] == '/' && line[1] == '/');
        proof {
            assert(views(pieces@).take(i + 1).drop_last() =~= views(pieces@).take(i as int));
        }
        if kept {
            reader.read_line(line);
        }
        i = i + 1;
    }
    proof {
        assert(views(pieces@).take(pieces@.len() as int) =~= views(pieces@));
    }
    Assembly {
        program: Program { lines: reader.lines, labels: reader.labels },
        memory: reader.memory,
        unknown_directives: reader.unknown,
        fault: reader.fault,
    }
}

} // verus!
