use vstd::prelude::*;

verus! {

/// An instruction of the virtual machine, one byte in a fragment's code.
#[derive(Debug, Clone, Copy, PartialEq, Eq, Structural)]
pub enum Opcode {
    Ret,
    Num,
    Neg,
    Add,
    Sub,
    Mul,
    Div,
    True,
    False,
    Not,
    Equal,
    Greater,
    Less,
    GreaterEqual,
    LessEqual,
    NotEqual,
    Str,
}

impl Opcode {
    /// The byte that encodes this opcode.
    pub open spec fn spec_byte(self) -> u8 {
        match self {
            Opcode::Ret => 0,
            Opcode::Num => 1,
            Opcode::Neg => 2,
            Opcode::Add => 3,
            Opcode::Sub => 4,
            Opcode::Mul => 5,
            Opcode::Div => 6,
            Opcode::True => 7,
            Opcode::False => 8,
            Opcode::Not => 9,
            Opcode::Equal => 10,
            Opcode::Greater => 11,
            Opcode::Less => 12,
            Opcode::GreaterEqual => 13,
            Opcode::LessEqual => 14,
            Opcode::NotEqual => 15,
            Opcode::Str => 16,
        }
    }

    /// The opcode that a byte encodes, if any.
    pub open spec fn spec_from_byte(b: u8) -> Option<Opcode> {
        if b == 0 {
            Some(Opcode::Ret)
        } else if b == 1 {
            Some(Opcode::Num)
        } else if b == 2 {
            Some(Opcode::Neg)
        } else if b == 3 {
            Some(Opcode::Add)
        } else if b == 4 {
            Some(Opcode::Sub)
        } else if b == 5 {
            Some(Opcode::Mul)
        } else if b == 6 {
            Some(Opcode::Div)
        } else if b == 7 {
            Some(Opcode::True)
        } else if b == 8 {
            Some(Opcode::False)
        } else if b == 9 {
            Some(Opcode::Not)
        } else if b == 10 {
            Some(Opcode::Equal)
        } else if b == 11 {
            Some(Opcode::Greater)
        } else if b == 12 {
            Some(Opcode::Less)
        } else if b == 13 {
            Some(Opcode::GreaterEqual)
        } else if b == 14 {
            Some(Opcode::LessEqual)
        } else if b == 15 {
            Some(Opcode::NotEqual)
        } else if b == 16 {
            Some(Opcode::Str)
        } else {
            None
        }
    }

    /// Whether the opcode is followed by an operand byte indexing a constant pool.
    pub open spec fn has_operand(self) -> bool {
        self == Opcode::Num || self == Opcode::Str
    }

    pub fn to_byte(self) -> (b: u8)
        ensures
            b == self.spec_byte(),
    {
        match self {
            Opcode::Ret => 0,
            Opcode::Num => 1,
            Opcode::Neg => 2,
            Opcode::Add => 3,
            Opcode::Sub => 4,
            Opcode::Mul => 5,
            Opcode::Div => 6,
            Opcode::True => 7,
            Opcode::False => 8,
            Opcode::Not => 9,
            Opcode::Equal => 10,
            Opcode::Greater => 11,
            Opcode::Less => 12,
            Opcode::GreaterEqual => 13,
            Opcode::LessEqual => 14,
            Opcode::NotEqual => 15,
            Opcode::Str => 16,
        }
    }

    /// Decodes a byte; `None` for a byte that encodes no opcode.
    pub fn from_byte(b: u8) -> (r: Option<Opcode>)
        ensures
            r == Opcode::spec_from_byte(b),
    {
        match b {
            0 => Some(Opcode::Ret),
            1 => Some(Opcode::Num),
            2 => Some(Opcode::Neg),
            3 => Some(Opcode::Add),
            4 => Some(Opcode::Sub),
            5 => Some(Opcode::Mul),
            6 => Some(Opcode::Div),
            7 => Some(Opcode::True),
            8 => Some(Opcode::False),
            9 => Some(Opcode::Not),
            10 => Some(Opcode::Equal),
            11 => Some(Opcode::Greater),
            12 => Some(Opcode::Less),
            13 => Some(Opcode::GreaterEqual),
            14 => Some(Opcode::LessEqual),
            15 => Some(Opcode::NotEqual),
            16 => Some(Opcode::Str),
            _ => None,
        }
    }
}

/// Decoding a byte gives back the opcode that was encoded.
pub proof fn lemma_opcode_byte_round_trip(op: Opcode)
    ensures
        Opcode::spec_from_byte(op.spec_byte()) == Some(op),
{
}

/// A byte decodes to an opcode only if it is that opcode's encoding.
pub proof fn lemma_opcode_from_byte_inverse(b: u8)
    ensures
        Opcode::spec_from_byte(b) matches Some(op) ==> op.spec_byte() == b,
{
}


/// One decoded instruction: an opcode and, for `Num` and `Str`, the index of its constant.
/// The operand of an opcode without one is 0.
#[derive(Debug, Clone, Copy, PartialEq, Eq, Structural)]
pub struct Instruction {
    pub opcode: Opcode,
    pub operand: u8,
}

/// An instruction that may stand in a fragment's body: a known opcode other than `Ret`,
/// with a zero operand where it takes none.
pub open spec fn valid_instr(i: Instruction) -> bool {
    &&& i.opcode != Opcode::Ret
    &&& (!i.opcode.has_operand() ==> i.operand == 0)
}

pub open spec fn all_valid(s: Seq<Instruction>) -> bool {
    forall|k: int| 0 <= k < s.len() ==> valid_instr(#[trigger] s[k])
}

/// The bytes of one instruction.
pub open spec fn encode_instr(i: Instruction) -> Seq<u8> {
    if i.opcode.has_operand() {
        seq![i.opcode.spec_byte(), i.operand]
    } else {
        seq![i.opcode.spec_byte()]
    }
}

/// The bytes of a sequence of instructions, one after another.
pub open spec fn encode(s: Seq<Instruction>) -> Seq<u8>
    decreases s.len(),
{
    if s.len() == 0 {
        Seq::empty()
    } else {
        encode_instr(s[0]) + encode(s.drop_first())
    }
}

/// The instructions that a code stream holds before its first `Ret`
/// (or before the first byte that is not an opcode, or a missing operand).
pub open spec fn decode(code: Seq<u8>) -> Seq<Instruction>
    decreases code.len(),
{
    if code.len() == 0 {
        Seq::empty()
    } else {
        match Opcode::spec_from_byte(code[0]) {
            None => Seq::empty(),
            Some(op) => if op == Opcode::Ret {
                Seq::empty()
            } else if op.has_operand() {
                if code.len() >= 2 {
                    seq![Instruction { opcode: op, operand: code[1] }] + decode(
                        code.subrange(2, code.len() as int),
                    )
                } else {
                    Seq::empty()
                }
            } else {
                seq![Instruction { opcode: op, operand: 0 }] + decode(
                    code.subrange(1, code.len() as int),
                )
            },
        }
    }
}

/// Moves one instruction's constant index by the sizes of the pools placed before its own.
pub open spec fn rebase_instr(i: Instruction, num_offset: nat, str_offset: nat) -> Instruction {
    if i.opcode == Opcode::Num {
        Instruction { opcode: i.opcode, operand: (i.operand + num_offset) as u8 }
    } else if i.opcode == Opcode::Str {
        Instruction { opcode: i.opcode, operand: (i.operand + str_offset) as u8 }
    } else {
        i
    }
}

pub open spec fn rebase(s: Seq<Instruction>, num_offset: nat, str_offset: nat) -> Seq<Instruction> {
    s.map_values(|i: Instruction| rebase_instr(i, num_offset, str_offset))
}

/// Every constant index of the instructions is below the given pool sizes.
pub open spec fn operands_in(s: Seq<Instruction>, n_numbers: nat, n_strings: nat) -> bool {
    forall|k: int|
        0 <= k < s.len() ==> {
            &&& (#[trigger] s[k]).opcode == Opcode::Num ==> s[k].operand < n_numbers
            &&& s[k].opcode == Opcode::Str ==> s[k].operand < n_strings
        }
}

pub proof fn lemma_encode_append(a: Seq<Instruction>, b: Seq<Instruction>)
    ensures
        encode(a + b) == encode(a) + encode(b),
    decreases a.len(),
{
    if a.len() == 0 {
        assert(a + b =~= b);
        assert(encode(a) + encode(b) =~= encode(b));
    } else {
        assert((a + b).drop_first() =~= a.drop_first() + b);
        lemma_encode_append(a.drop_first(), b);
        assert(encode(a + b) =~= encode(a) + encode(b));
    }
}

/// Decoding the encoding of valid instructions, closed by `Ret`, gives them back.
pub proof fn lemma_decode_encode(s: Seq<Instruction>)
    requires
        all_valid(s),
    ensures
        decode(encode(s) + seq![Opcode::Ret.spec_byte()]) == s,
    decreases s.len(),
{
    let code = encode(s) + seq![Opcode::Ret.spec_byte()];
    if s.len() == 0 {
        assert(code =~= seq![0u8]);
        assert(s =~= Seq::<Instruction>::empty());
    } else {
        let i = s[0];
        let rest = s.drop_first();
        assert(valid_instr(s[0]));
        assert forall|k: int| 0 <= k < rest.len() implies valid_instr(#[trigger] rest[k]) by {
            assert(rest[k] == s[k + 1]);
        }
        lemma_decode_encode(rest);
        let k: int = if i.opcode.has_operand() { 2 } else { 1 };
        assert(code =~= encode_instr(i) + (encode(rest) + seq![Opcode::Ret.spec_byte()]));
        assert(code.subrange(k, code.len() as int) =~= encode(rest) + seq![
            Opcode::Ret.spec_byte(),
        ]);
        lemma_opcode_byte_round_trip(i.opcode);
        assert(s =~= seq![i] + rest);
    }
}

/// Encoding what a code stream decodes to, then closing with `Ret`, reproduces the stream
/// exactly when the stream is a body of instructions closed by one `Ret`.
pub open spec fn well_formed_code(code: Seq<u8>) -> bool {
    code == encode(decode(code)) + seq![Opcode::Ret.spec_byte()]
}

pub proof fn lemma_decode_valid(code: Seq<u8>)
    ensures
        all_valid(decode(code)),
    decreases code.len(),
{
    if code.len() > 0 {
        match Opcode::spec_from_byte(code[0]) {
            None => {},
            Some(op) => {
                if op != Opcode::Ret {
                    if op.has_operand() {
                        if code.len() >= 2 {
                            lemma_decode_valid(code.subrange(2, code.len() as int));
                        }
                    } else {
                        lemma_decode_valid(code.subrange(1, code.len() as int));
                    }
                    let d = decode(code);
                    assert forall|k: int| 0 <= k < d.len() implies valid_instr(#[trigger] d[k]) by {
                        if k > 0 {
                            if op.has_operand() {
                                assert(d[k] == decode(code.subrange(2, code.len() as int))[k - 1]);
                            } else {
                                assert(d[k] == decode(code.subrange(1, code.len() as int))[k - 1]);
                            }
                        }
                    }
                }
            },
        }
    }
}



/// Each constant index still fits in a byte once moved by the offsets.
pub open spec fn offsets_fit(s: Seq<Instruction>, num_offset: nat, str_offset: nat) -> bool {
    forall|k: int|
        0 <= k < s.len() ==> {
            &&& (#[trigger] s[k]).opcode == Opcode::Num ==> s[k].operand + num_offset < 256
            &&& s[k].opcode == Opcode::Str ==> s[k].operand + str_offset < 256
        }
}

/// Moving constant indices leaves the length of the encoding unchanged.
pub proof fn lemma_encode_rebase_len(s: Seq<Instruction>, num_offset: nat, str_offset: nat)
    ensures
        encode(rebase(s, num_offset, str_offset)).len() == encode(s).len(),
    decreases s.len(),
{
    if s.len() > 0 {
        lemma_encode_rebase_len(s.drop_first(), num_offset, str_offset);
        assert(rebase(s, num_offset, str_offset).drop_first() =~= rebase(
            s.drop_first(),
            num_offset,
            str_offset,
        ));
    }
}

/// An opcode that a binary or unary operator compiles to: no operand, and not `Ret`.
pub open spec fn is_operator_opcode(op: Opcode) -> bool {
    op != Opcode::Ret && !op.has_operand()
}

/// The instructions of two fragments spliced under an operator.
pub open spec fn merged_body(left: Fragment, right: Fragment, op: Opcode) -> Seq<Instruction> {
    left.body() + rebase(right.body(), left.numbers.len(), left.strings.len()) + seq![
        Instruction { opcode: op, operand: 0 },
    ]
}

/// The code bytes of two fragments spliced under an operator.
pub open spec fn merged_code(left: Fragment, right: Fragment, op: Opcode) -> Seq<u8> {
    encode(left.body()) + encode(rebase(right.body(), left.numbers.len(), left.strings.len()))
        + seq![op.spec_byte(), Opcode::Ret.spec_byte()]
}

/// Two fragments spliced under an operator whose token stood on `line`.
pub open spec fn merge_model(left: Fragment, right: Fragment, op: Opcode, line: u32) -> Fragment {
    Fragment {
        code: merged_code(left, right, op),
        numbers: left.numbers + right.numbers,
        strings: left.strings + right.strings,
        lines: left.lines.drop_last() + right.lines.drop_last() + seq![line, line],
    }
}

/// The spliced code is well formed, decodes to the spliced body, and every constant index
/// of that body lies inside the concatenated pools.
pub proof fn lemma_merged_body(left: Fragment, right: Fragment, op: Opcode)
    requires
        left.wf(),
        right.wf(),
        is_operator_opcode(op),
        left.numbers.len() + right.numbers.len() <= 256,
        left.strings.len() + right.strings.len() <= 256,
    ensures
        well_formed_code(merged_code(left, right, op)),
        decode(merged_code(left, right, op)) == merged_body(left, right, op),
        operands_in(
            merged_body(left, right, op),
            left.numbers.len() + right.numbers.len(),
            left.strings.len() + right.strings.len(),
        ),
{
    let nl = left.numbers.len();
    let sl = left.strings.len();
    let l = left.body();
    let r = rebase(right.body(), nl, sl);
    let opi = Instruction { opcode: op, operand: 0 };
    lemma_decode_valid(left.code);
    lemma_decode_valid(right.code);
    assert forall|k: int| 0 <= k < r.len() implies valid_instr(#[trigger] r[k]) by {
        assert(valid_instr(right.body()[k]));
    }
    assert(encode(seq![opi]) =~= seq![op.spec_byte()]) by {
        assert(seq![opi].drop_first() =~= Seq::<Instruction>::empty());
        assert(encode(Seq::<Instruction>::empty()) =~= Seq::<u8>::empty());
    }
    lemma_encode_append(l, r);
    lemma_encode_append(l + r, seq![opi]);
    let body = merged_body(left, right, op);
    assert(body =~= l + r + seq![opi]);
    assert(merged_code(left, right, op) =~= encode(body) + seq![Opcode::Ret.spec_byte()]);
    assert forall|k: int| 0 <= k < body.len() implies valid_instr(#[trigger] body[k]) by {
        if k < l.len() {
            assert(body[k] == l[k]);
        } else if k < l.len() + r.len() {
            assert(body[k] == r[k - l.len()]);
        }
    }
    lemma_decode_encode(body);
    assert forall|k: int| 0 <= k < body.len() implies {
        &&& (#[trigger] body[k]).opcode == Opcode::Num ==> body[k].operand < nl
            + right.numbers.len()
        &&& body[k].opcode == Opcode::Str ==> body[k].operand < sl + right.strings.len()
    } by {
        if k < l.len() {
            assert(body[k] == l[k]);
        } else if k < l.len() + r.len() {
            assert(body[k] == r[k - l.len()]);
            assert(right.body()[k - l.len()] == right.body()[k - l.len()]);
        }
    }
}

/// A fragment of compiled code: the instruction stream, the numeric and string constant
/// pools, and one source line per code byte. A number is held as the bit pattern of its
/// 64-bit floating-point value.
#[derive(Debug)]
pub struct ByteCode {
    pub code: Vec<u8>,
    pub numbers: Vec<u64>,
    pub strings: Vec<String>,
    pub line_info: Vec<u32>,
}

/// The texts of a pool of strings.
pub open spec fn texts(v: Seq<String>) -> Seq<Seq<char>> {
    v.map_values(|s: String| s@)
}

/// The mathematical content of a fragment: code bytes, numeric pool (bit patterns),
/// string pool (texts), and one line per code byte.
pub struct Fragment {
    pub code: Seq<u8>,
    pub numbers: Seq<u64>,
    pub strings: Seq<Seq<char>>,
    pub lines: Seq<u32>,
}

impl Fragment {
    /// The instructions of the fragment, before its closing `Ret`.
    pub open spec fn body(self) -> Seq<Instruction> {
        decode(self.code)
    }

    /// A body of instructions closed by one `Ret`, every constant index inside its pool,
    /// and a line for each code byte.
    pub open spec fn wf(self) -> bool {
        &&& well_formed_code(self.code)
        &&& operands_in(self.body(), self.numbers.len(), self.strings.len())
        &&& self.lines.len() == self.code.len()
    }
}

impl View for ByteCode {
    type V = Fragment;

    open spec fn view(&self) -> Fragment {
        Fragment {
            code: self.code@,
            numbers: self.numbers@,
            strings: texts(self.strings@),
            lines: self.line_info@,
        }
    }
}

impl ByteCode {
    pub fn new() -> (r: ByteCode)
        ensures
            r.code@.len() == 0,
            r.numbers@.len() == 0,
            r.strings@.len() == 0,
            r.line_info@.len() == 0,
    {
        ByteCode { code: Vec::new(), numbers: Vec::new(), strings: Vec::new(), line_info: Vec::new() }
    }

    /// Whether the fragment holds no code at all.
    pub fn is_nop(&self) -> (r: bool)
        ensures
            r == (self.code@.len() == 0),
    {
        self.code.len() == 0
    }

    pub fn write_code(&mut self, byte: u8, line: u32)
        ensures
            final(self).code@ == old(self).code@.push(byte),
            final(self).line_info@ == old(self).line_info@.push(line),
            final(self).numbers@ == old(self).numbers@,
            final(self).strings@ == old(self).strings@,
    {
        self.code.push(byte);
        self.line_info.push(line);
    }

    pub fn write_number(&mut self, bits: u64)
        ensures
            final(self).numbers@ == old(self).numbers@.push(bits),
            final(self).code@ == old(self).code@,
            final(self).strings@ == old(self).strings@,
            final(self).line_info@ == old(self).line_info@,
    {
        self.numbers.push(bits);
    }

    pub fn write_string(&mut self, text: String)
        ensures
            final(self).strings@ == old(self).strings@.push(text),
            final(self).code@ == old(self).code@,
            final(self).numbers@ == old(self).numbers@,
            final(self).line_info@ == old(self).line_info@,
    {
        self.strings.push(text);
    }

    /// Appends the constants of `source` to the pools of `target`.
    fn steal_data(target: &mut ByteCode, source: &ByteCode)
        requires
            old(target).numbers@.len() + source.numbers@.len() <= usize::MAX,
            old(target).strings@.len() + source.strings@.len() <= usize::MAX,
        ensures
            final(target).numbers@ == old(target).numbers@ + source.numbers@,
            final(target)@.strings == old(target)@.strings + source@.strings,
            final(target).strings@.len() == old(target).strings@.len() + source.strings@.len(),
            final(target).code@ == old(target).code@,
            final(target).line_info@ == old(target).line_info@,
    {
        let mut i: usize = 0;
        while i < source.numbers.len()
            invariant
                i <= source.numbers@.len(),
                target.numbers@ == old(target).numbers@ + source.numbers@.take(i as int),
                target.strings@ == old(target).strings@,
                target.code@ == old(target).code@,
                target.line_info@ == old(target).line_info@,
            decreases source.numbers@.len() - i,
        {
            target.write_number(source.numbers[i]);
            assert(source.numbers@.take(i + 1) =~= source.numbers@.take(i as int).push(
                source.numbers@[i as int],
            ));
            i += 1;
        }
        assert(source.numbers@.take(i as int) =~= source.numbers@);
        let mut j: usize = 0;
        while j < source.strings.len()
            invariant
                j <= source.strings@.len(),
                target.numbers@ == old(target).numbers@ + source.numbers@,
                target@.strings == old(target)@.strings + source@.strings.take(
                    j as int,
                ),
                target.strings@.len() == old(target).strings@.len() + j,
                target.code@ == old(target).code@,
                target.line_info@ == old(target).line_info@,
            decreases source.strings@.len() - j,
        {
            let ghost before = target.strings@;
            let text = source.strings[j].clone();
            target.write_string(text);
            assert(texts(before.push(text)) =~= texts(before).push(text@));
            assert(source@.strings.take(j + 1) =~= source@.strings.take(j as int).push(
                source.strings@[j as int]@,
            ));
            j += 1;
        }
        assert(source@.strings.take(j as int) =~= source@.strings);
    }

    /// Reads the opcode at `*ip` and moves past it; `None`, with `*ip` unchanged, where `*ip`
    /// is outside the code or its byte encodes no opcode.
    pub fn fetch_instruction(&self, ip: &mut usize) -> (r: Option<Opcode>)
        ensures
            *old(ip) < self.code@.len() ==> r == Opcode::spec_from_byte(self.code@[*old(ip) as int]),
            *old(ip) >= self.code@.len() ==> r is None,
            r is Some ==> *final(ip) == *old(ip) + 1,
            r is None ==> *final(ip) == *old(ip),
    {
        if *ip >= self.code.len() {
            return None;
        }
        let r = Opcode::from_byte(self.code[*ip]);
        if r.is_some() {
            *ip += 1;
        }
        r
    }

    /// Reads the operand byte at `*ip` and moves past it; `None` outside the code.
    pub fn fetch_operand(&self, ip: &mut usize) -> (r: Option<u8>)
        ensures
            *old(ip) < self.code@.len() ==> r == Some(self.code@[*old(ip) as int]) && *final(ip)
                == *old(ip) + 1,
            *old(ip) >= self.code@.len() ==> r is None && *final(ip) == *old(ip),
    {
        if *ip >= self.code.len() {
            return None;
        }
        let r = self.code[*ip];
        *ip += 1;
        Some(r)
    }

    /// The numeric constant at `addr`; `None` outside the pool.
    pub fn fetch_number(&self, addr: usize) -> (r: Option<u64>)
        ensures
            addr < self.numbers@.len() ==> r == Some(self.numbers@[addr as int]),
            addr >= self.numbers@.len() ==> r is None,
    {
        if addr >= self.numbers.len() {
            None
        } else {
            Some(self.numbers[addr])
        }
    }

    /// The string constant at `addr`; `None` outside the pool.
    pub fn fetch_string(&self, addr: usize) -> (r: Option<&String>)
        ensures
            addr < self.strings@.len() ==> r == Some(&self.strings@[addr as int]),
            addr >= self.strings@.len() ==> r is None,
    {
        if addr >= self.strings.len() {
            None
        } else {
            Some(&self.strings[addr])
        }
    }

    /// The instructions of a well-formed fragment, in order, up to its closing `Ret`: what a
    /// disassembly lists.
    pub fn disassemble(&self) -> (r: Vec<Instruction>)
        requires
            self@.wf(),
        ensures
            r@ == self@.body(),
    {
        let ghost src = self.code@;
        let ghost len = src.len() as int;
        let n = self.code.len();
        let mut out: Vec<Instruction> = Vec::new();
        let mut cursor: usize = 0;
        assert(src.subrange(0, len) =~= src);
        loop
            invariant
                cursor < len,
                len == n,
                src == self.code@,
                len == src.len(),
                well_formed_code(src.subrange(cursor as int, len)),
                out@ + decode(src.subrange(cursor as int, len)) == decode(src),
            decreases len - cursor,
        {
            let ghost rest = src.subrange(cursor as int, len);
            let ghost d = decode(rest);
            let byte = self.code[cursor];
            proof {
                lemma_opcode_from_byte_inverse(byte);
            }
            match Opcode::from_byte(byte) {
                Some(Opcode::Ret) => {
                    assert(d.len() == 0);
                    assert(out@ =~= decode(src));
                    return out;
                },
                Some(op) => {
                    let ghost i = d[0];
                    let ghost k: int = if op.has_operand() { 2 } else { 1 };
                    assert(rest.len() >= k);
                    let ghost next = src.subrange(cursor + k, len);
                    assert(rest.subrange(k, rest.len() as int) =~= next);
                    assert(d =~= seq![i] + decode(next));
                    assert(d.drop_first() =~= decode(next));
                    assert(rest =~= encode_instr(i) + (encode(decode(next)) + seq![
                        Opcode::Ret.spec_byte(),
                    ]));
                    assert(encode(decode(next)) + seq![Opcode::Ret.spec_byte()] =~= rest.subrange(
                        k,
                        rest.len() as int,
                    ));
                    if op == Opcode::Num || op == Opcode::Str {
                        out.push(Instruction { opcode: op, operand: self.code[cursor + 1] });
                    } else {
                        out.push(Instruction { opcode: op, operand: 0 });
                    }
                    if op == Opcode::Num || op == Opcode::Str {
                        cursor += 2;
                    } else {
                        cursor += 1;
                    }
                    assert(out@ + decode(next) =~= decode(src));
                },
                None => {
                    assert(false);
                    return out;
                },
            }
        }
    }

    /// Splices two fragments under a binary operator: the pools are concatenated, the right
    /// body's constant indices are moved past the left pools, and the operator and a closing
    /// `Ret` follow. Neither input is changed.
    pub fn merge_binary(left: &ByteCode, right: &ByteCode, operation: Opcode, line: u32) -> (r:
        ByteCode)
        requires
            left@.wf(),
            right@.wf(),
            is_operator_opcode(operation),
            left.numbers@.len() + right.numbers@.len() <= 256,
            left.strings@.len() + right.strings@.len() <= 256,
        ensures
            r@ == merge_model(left@, right@, operation, line),
            r@.wf(),
            r@.body() == merged_body(left@, right@, operation),
    {
        let mut code = ByteCode::new();
        let num_offset = left.numbers.len();
        let str_offset = left.strings.len();
        ByteCode::steal_data(&mut code, left);
        ByteCode::steal_data(&mut code, right);
        proof {
            let l = left@.body();
            assert(rebase(l, 0, 0) =~= l);
            assert forall|k: int| 0 <= k < right@.body().len() implies {
                &&& (#[trigger] right@.body()[k]).opcode == Opcode::Num ==> right@.body()[k].operand
                    + num_offset < 256
                &&& right@.body()[k].opcode == Opcode::Str ==> right@.body()[k].operand + str_offset
                    < 256
            } by {}
        }
        ByteCode::steal_code(&mut code, left, 0, 0);
        ByteCode::steal_code(&mut code, right, num_offset, str_offset);
        code.write_code(operation.to_byte(), line);
        code.write_code(Opcode::Ret.to_byte(), line);
        proof {
            lemma_merged_body(left@, right@, operation);
            lemma_encode_rebase_len(right@.body(), left@.numbers.len(), left@.strings.len());
            assert(code.code@ =~= merged_code(left@, right@, operation));
            assert(code@.strings =~= left@.strings + right@.strings);
            assert(code.line_info@ =~= left.line_info@.drop_last() + right.line_info@.drop_last()
                + seq![line, line]);
        }
        code
    }

    /// Copies the body of `source` to the end of `target`'s code, moving each constant index
    /// by the given offsets; the closing `Ret` is not copied.
    fn steal_code(target: &mut ByteCode, source: &ByteCode, num_offset: usize, str_offset: usize)
        requires
            well_formed_code(source.code@),
            source.line_info@.len() == source.code@.len(),
            offsets_fit(source@.body(), num_offset as nat, str_offset as nat),
        ensures
            final(target).code@ == old(target).code@ + encode(
                rebase(source@.body(), num_offset as nat, str_offset as nat),
            ),
            final(target).line_info@ == old(target).line_info@ + source.line_info@.drop_last(),
            final(target).numbers@ == old(target).numbers@,
            final(target).strings@ == old(target).strings@,
    {
        let ghost src = source.code@;
        let ghost len = src.len() as int;
        let ghost nof = num_offset as nat;
        let ghost sof = str_offset as nat;
        let mut cursor: usize = 0;
        let n = source.code.len();
        assert(src.subrange(0, len) =~= src);
        loop
            invariant
                cursor < len,
                len == n,
                nof == num_offset as nat,
                sof == str_offset as nat,
                src == source.code@,
                len == src.len(),
                source.line_info@.len() == len,
                well_formed_code(src.subrange(cursor as int, len)),
                offsets_fit(decode(src.subrange(cursor as int, len)), nof, sof),
                old(target).code@ + encode(rebase(decode(src), nof, sof)) == target.code@
                    + encode(rebase(decode(src.subrange(cursor as int, len)), nof, sof)),
                target.line_info@ == old(target).line_info@ + source.line_info@.take(
                    cursor as int,
                ),
                target.numbers@ == old(target).numbers@,
                target.strings@ == old(target).strings@,
            decreases len - cursor,
        {
            let ghost rest = src.subrange(cursor as int, len);
            let ghost d = decode(rest);
            let byte = source.code[cursor];
            let opcode = Opcode::from_byte(byte);
            proof {
                lemma_opcode_from_byte_inverse(byte);
            }
            match opcode {
                Some(Opcode::Ret) => {
                    assert(d.len() == 0);
                    assert(encode(d) =~= Seq::<u8>::empty());
                    assert(rebase(d, nof, sof) =~= Seq::<Instruction>::empty());
                    assert(target.code@ =~= old(target).code@ + encode(
                        rebase(decode(src), nof, sof),
                    ));
                    assert(source.line_info@.take(cursor as int) =~= source.line_info@.drop_last());
                    assert(source@.body() == decode(src));
                    return ;
                },
                Some(op) => {
                    let ghost i = d[0];
                    let ghost k: int = if op.has_operand() { 2 } else { 1 };
                    assert(rest.len() >= k);
                    let ghost next = src.subrange(cursor + k, len);
                    assert(rest.subrange(k, rest.len() as int) =~= next);
                    assert(d =~= seq![i] + decode(next));
                    assert(d.drop_first() =~= decode(next));
                    assert(rest =~= encode_instr(i) + (encode(decode(next)) + seq![
                        Opcode::Ret.spec_byte(),
                    ]));
                    assert(next =~= rest.subrange(k, rest.len() as int));
                    assert(encode(decode(next)) + seq![Opcode::Ret.spec_byte()] =~= rest.subrange(k, rest.len() as int));
                    assert(well_formed_code(next));
                    assert forall|j: int| 0 <= j < decode(next).len() implies {
                        &&& (#[trigger] decode(next)[j]).opcode == Opcode::Num ==> decode(
                            next,
                        )[j].operand + nof < 256
                        &&& decode(next)[j].opcode == Opcode::Str ==> decode(next)[j].operand
                            + sof < 256
                    } by {
                        assert(decode(next)[j] == d[j + 1]);
                    }
                    assert(rebase(d, nof, sof) =~= seq![rebase_instr(i, nof, sof)] + rebase(
                        decode(next),
                        nof,
                        sof,
                    ));
                    assert(rebase(d, nof, sof).drop_first() =~= rebase(decode(next), nof, sof));
                    let ghost before = target.code@;
                    if op == Opcode::Num || op == Opcode::Str {
                        let off = if op == Opcode::Num { num_offset } else { str_offset };
                        target.write_code(byte, source.line_info[cursor]);
                        cursor += 1;
                        let addr = source.code[cursor];
                        target.write_code((addr as usize + off) as u8, source.line_info[cursor]);
                        assert(target.code@ =~= before + encode_instr(rebase_instr(i, nof, sof)));
                    } else {
                        target.write_code(byte, source.line_info[cursor]);
                        assert(target.code@ =~= before + encode_instr(rebase_instr(i, nof, sof)));
                    }
                    cursor += 1;
                    assert(source.line_info@.take(cursor as int) =~= source.line_info@.take(
                        cursor - k,
                    ) + source.line_info@.subrange(cursor - k, cursor as int));
                    assert(target.code@ + encode(rebase(decode(next), nof, sof)) =~= before
                        + encode(rebase(d, nof, sof)));
                },
                None => {
                    assert(false);
                    return ;
                },
            }
        }
    }
}

/// One line of a listing: an opcode without operand, or a constant-pushing instruction
/// shown with the constant it pushes.
pub enum Listed {
    Plain(Opcode),
    Number(u64),
    Text(Seq<char>),
}

/// An instruction of `frag` shown with the constant it refers to.
pub open spec fn listed_instr(frag: Fragment, i: Instruction) -> Listed {
    if i.opcode == Opcode::Num {
        Listed::Number(frag.numbers[i.operand as int])
    } else if i.opcode == Opcode::Str {
        Listed::Text(frag.strings[i.operand as int])
    } else {
        Listed::Plain(i.opcode)
    }
}

/// What a disassembly of the fragment shows: each instruction of its body with its constant.
pub open spec fn listing(frag: Fragment) -> Seq<Listed> {
    frag.body().map_values(|i: Instruction| listed_instr(frag, i))
}

/// Splicing is transparent: a fragment holding the spliced code and the concatenated pools,
/// whether `merge_binary` built it or it was written out directly, lists the left fragment's
/// instructions, then the right fragment's, each with the same constant as before, then the
/// operator.
pub proof fn lemma_merge_listing(left: Fragment, right: Fragment, op: Opcode, spliced: Fragment)
    requires
        left.wf(),
        right.wf(),
        is_operator_opcode(op),
        left.numbers.len() + right.numbers.len() <= 256,
        left.strings.len() + right.strings.len() <= 256,
        spliced.code == merged_code(left, right, op),
        spliced.numbers == left.numbers + right.numbers,
        spliced.strings == left.strings + right.strings,
    ensures
        spliced.body() == merged_body(left, right, op),
        listing(spliced) == listing(left) + listing(right) + seq![Listed::Plain(op)],
{
    lemma_merged_body(left, right, op);
    let nl = left.numbers.len();
    let sl = left.strings.len();
    let l = left.body();
    let rb = right.body();
    let body = spliced.body();
    let expected = listing(left) + listing(right) + seq![Listed::Plain(op)];
    assert(body.len() == l.len() + rb.len() + 1);
    assert forall|k: int| 0 <= k < body.len() implies #[trigger] listing(spliced)[k]
        == expected[k] by {
        if k < l.len() {
            assert(body[k] == l[k]);
        } else if k < l.len() + rb.len() {
            let j = k - l.len();
            assert(body[k] == rebase(rb, nl, sl)[j]);
            assert(rb[j] == rb[j]);
        }
    }
    assert(listing(spliced) =~= expected);
}

} // verus!
