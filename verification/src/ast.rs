use vstd::prelude::*;

verus! {

broadcast use vstd::std_specs::vec::group_vec_axioms;

/// Classification tag of a register operand.
#[derive(Debug, Clone, Copy, PartialEq, Eq, Structural)]
pub enum RegisterType {
    Address,
    Data,
    SP,
}

/// A typed addressing-mode tree for one operand.
#[derive(Debug, PartialEq)]
pub enum Operand {
    Register(RegisterType, String),
    Immediate(String),
    Indirect { offset: String, operand: Box<Operand> },
    IndirectWithDisplacement { offset: String, operands: Vec<Operand> },
    PostIndirect(Box<Operand>),
    PreIndirect(Box<Operand>),
    Address(String),
    Label(String),
    Other(String),
}

/// Mathematical model of an [`Operand`]: the same tree over `Seq<char>`.
#[verifier::ext_equal]
pub enum OperandModel {
    Register(RegisterType, Seq<char>),
    Immediate(Seq<char>),
    Indirect { offset: Seq<char>, operand: Box<OperandModel> },
    IndirectWithDisplacement { offset: Seq<char>, operands: Seq<OperandModel> },
    PostIndirect(Box<OperandModel>),
    PreIndirect(Box<OperandModel>),
    Address(Seq<char>),
    Label(Seq<char>),
    Other(Seq<char>),
}

/// Views of a sequence of operands, elementwise.
pub open spec fn ops_view(l: Seq<Operand>) -> Seq<OperandModel>
    decreases l,
{
    Seq::new(
        l.len(),
        |i: int|
            if 0 <= i < l.len() {
                l[i]@
            } else {
                OperandModel::Other(Seq::empty())
            },
    )
}

impl View for Operand {
    type V = OperandModel;

    open spec fn view(&self) -> OperandModel
        decreases self,
    {
        match self {
            Operand::Register(t, s) => OperandModel::Register(*t, s@),
            Operand::Immediate(s) => OperandModel::Immediate(s@),
            Operand::Indirect { offset, operand } => OperandModel::Indirect {
                offset: offset@,
                operand: Box::new((**operand)@),
            },
            Operand::IndirectWithDisplacement { offset, operands } => (
                OperandModel::IndirectWithDisplacement {
                    offset: offset@,
                    operands: ops_view(operands@),
                }
            ),
            Operand::PostIndirect(o) => OperandModel::PostIndirect(Box::new((**o)@)),
            Operand::PreIndirect(o) => OperandModel::PreIndirect(Box::new((**o)@)),
            Operand::Address(s) => OperandModel::Address(s@),
            Operand::Label(s) => OperandModel::Label(s@),
            Operand::Other(s) => OperandModel::Other(s@),
        }
    }
}

impl DeepView for Operand {
    type V = OperandModel;

    open spec fn deep_view(&self) -> OperandModel {
        self.view()
    }
}

impl Clone for Operand {
    /// Deep copy; the copy has the same model as the original.
    #[verifier::loop_isolation(false)]
    fn clone(&self) -> (r: Self)
        ensures
            r@ == self@,
        decreases self,
    {
        match self {
            Operand::Register(t, s) => Operand::Register(*t, s.clone()),
            Operand::Immediate(s) => Operand::Immediate(s.clone()),
            Operand::Indirect { offset, operand } => Operand::Indirect {
                offset: offset.clone(),
                operand: Box::new((**operand).clone()),
            },
            Operand::IndirectWithDisplacement { offset, operands } => {
                let mut ops: Vec<Operand> = Vec::new();
                let mut i: usize = 0;
                while i < operands.len()
                    invariant
                        i <= operands@.len(),
                        ops@.len() == i,
                        forall|j: int| 0 <= j < i ==> ops@[j]@ == operands@[j]@,
                    decreases operands@.len() - i,
                {
                    proof {
                        assert(*self == Operand::IndirectWithDisplacement {
                            offset: *offset,
                            operands: *operands,
                        });
                        assert(decreases_to!(*self => *operands));
                        assert(decreases_to!(*operands => operands@));
                        assert(decreases_to!(operands@ => operands@[i as int]));
                        assert(decreases_to!(*self => operands@[i as int]));
                    }
                    ops.push(operands[i].clone());
                    i = i + 1;
                }
                let ghost ops_s = ops;
                let off2 = offset.clone();
                let ghost off2_s = off2;
                let res = Operand::IndirectWithDisplacement { offset: off2, operands: ops };
                proof {
                    assert(res == Operand::IndirectWithDisplacement {
                        offset: off2_s,
                        operands: ops_s,
                    });
                    let a = ops_view(ops_s@);
                    let b = ops_view(operands@);
                    assert forall|k: int| 0 <= k < a.len() implies a[k] == b[k] by {
                        assert(ops_s@[k]@ == operands@[k]@);
                    }
                    assert(a =~= b);
                    assert(res@ == OperandModel::IndirectWithDisplacement {
                        offset: off2_s@,
                        operands: a,
                    });
                    assert(off2_s@ == offset@);
                    assert((*self)@ == OperandModel::IndirectWithDisplacement {
                        offset: offset@,
                        operands: b,
                    });
                    assert(res@ == (*self)@);
                }
                res
            },
            Operand::PostIndirect(o) => Operand::PostIndirect(Box::new((**o).clone())),
            Operand::PreIndirect(o) => Operand::PreIndirect(Box::new((**o).clone())),
            Operand::Address(s) => Operand::Address(s.clone()),
            Operand::Label(s) => Operand::Label(s.clone()),
            Operand::Other(s) => Operand::Other(s.clone()),
        }
    }
}

/// Operand classification produced by the pattern classifier.
#[derive(Debug, Clone, Copy, PartialEq, Eq, Structural)]
pub enum OperandKind {
    Register,
    Immediate,
    Indirect,
    IndirectDisplacement,
    PostIndirect,
    PreIndirect,
    Label,
    Address,
}

/// Operation width decoded from an optional `.b`/`.w`/`.l` mnemonic suffix.
/// `Unspecified` means no suffix; `Unknown` means an unrecognized suffix.
#[derive(Debug, Clone, Copy, PartialEq, Eq, Structural)]
pub enum Size {
    Byte,
    Word,
    Long,
    Unspecified,
    Unknown,
}

/// An argument of a label line, tagged with the separator that terminated it.
#[derive(Debug, PartialEq)]
pub enum ArgSeparated {
    Comma(String),
    Space(String),
}

/// Model of an [`ArgSeparated`].
#[verifier::ext_equal]
pub enum ArgSepModel {
    Comma(Seq<char>),
    Space(Seq<char>),
}

impl View for ArgSeparated {
    type V = ArgSepModel;

    open spec fn view(&self) -> ArgSepModel {
        match self {
            ArgSeparated::Comma(s) => ArgSepModel::Comma(s@),
            ArgSeparated::Space(s) => ArgSepModel::Space(s@),
        }
    }
}

impl DeepView for ArgSeparated {
    type V = ArgSepModel;

    open spec fn deep_view(&self) -> ArgSepModel {
        self.view()
    }
}

impl Clone for ArgSeparated {
    fn clone(&self) -> (r: Self)
        ensures
            r == *self,
    {
        match self {
            ArgSeparated::Comma(s) => ArgSeparated::Comma(s.clone()),
            ArgSeparated::Space(s) => ArgSeparated::Space(s.clone()),
        }
    }
}

/// One classified source line.
#[derive(Debug, PartialEq)]
pub enum Line {
    Label { name: String, args: Vec<ArgSeparated> },
    Directive { args: Vec<String> },
    Instruction { name: String, operands: Vec<Operand>, size: Size },
    Comment { content: String },
    Empty,
    Unknown,
}

/// Model of a [`Line`].
#[verifier::ext_equal]
pub enum LineModel {
    Label { name: Seq<char>, args: Seq<ArgSepModel> },
    Directive { args: Seq<Seq<char>> },
    Instruction { name: Seq<char>, operands: Seq<OperandModel>, size: Size },
    Comment { content: Seq<char> },
    Empty,
    Unknown,
}

/// Views of a sequence of separated arguments, elementwise.
pub open spec fn asv_view(l: Seq<ArgSeparated>) -> Seq<ArgSepModel> {
    Seq::new(
        l.len(),
        |i: int|
            if 0 <= i < l.len() {
                l[i]@
            } else {
                ArgSepModel::Space(Seq::empty())
            },
    )
}

/// Views of a sequence of strings, elementwise.
pub open spec fn strs_view(l: Seq<String>) -> Seq<Seq<char>> {
    Seq::new(
        l.len(),
        |i: int|
            if 0 <= i < l.len() {
                l[i]@
            } else {
                Seq::empty()
            },
    )
}

pub proof fn lemma_strs_view_push(l: Seq<String>, s: String)
    ensures
        strs_view(l.push(s)) == strs_view(l).push(s@),
{
    assert(strs_view(l.push(s)) =~= strs_view(l).push(s@));
}

pub proof fn lemma_asv_view_push(l: Seq<ArgSeparated>, a: ArgSeparated)
    ensures
        asv_view(l.push(a)) == asv_view(l).push(a@),
{
    assert(asv_view(l.push(a)) =~= asv_view(l).push(a@));
}

pub proof fn lemma_ops_view_push(l: Seq<Operand>, o: Operand)
    ensures
        ops_view(l.push(o)) == ops_view(l).push(o@),
{
    assert(ops_view(l.push(o)) =~= ops_view(l).push(o@));
}

impl View for Line {
    type V = LineModel;

    open spec fn view(&self) -> LineModel {
        match self {
            Line::Label { name, args } => LineModel::Label { name: name@, args: asv_view(args@) },
            Line::Directive { args } => LineModel::Directive { args: strs_view(args@) },
            Line::Instruction { name, operands, size } => LineModel::Instruction {
                name: name@,
                operands: ops_view(operands@),
                size: *size,
            },
            Line::Comment { content } => LineModel::Comment { content: content@ },
            Line::Empty => LineModel::Empty,
            Line::Unknown => LineModel::Unknown,
        }
    }
}

impl DeepView for Line {
    type V = LineModel;

    open spec fn deep_view(&self) -> LineModel {
        self.view()
    }
}

impl Clone for Line {
    /// Deep copy; the copy has the same model as the original.
    #[verifier::loop_isolation(false)]
    fn clone(&self) -> (r: Self)
        ensures
            r@ == self@,
    {
        match self {
            Line::Label { name, args } => {
                let mut a2: Vec<ArgSeparated> = Vec::new();
                let mut i: usize = 0;
                while i < args.len()
                    invariant
                        i <= args@.len(),
                        a2@ == args@.take(i as int),
                    decreases args@.len() - i,
                {
                    a2.push(args[i].clone());
                    i = i + 1;
                    proof {
                        assert(args@.take(i as int) =~= args@.take(i as int - 1).push(
                            args@[i as int - 1],
                        ));
                    }
                }
                proof {
                    assert(args@.take(args@.len() as int) =~= args@);
                }
                Line::Label { name: name.clone(), args: a2 }
            },
            Line::Directive { args } => {
                let mut a2: Vec<String> = Vec::new();
                let mut i: usize = 0;
                while i < args.len()
                    invariant
                        i <= args@.len(),
                        a2@ == args@.take(i as int),
                    decreases args@.len() - i,
                {
                    a2.push(args[i].clone());
                    i = i + 1;
                    proof {
                        assert(args@.take(i as int) =~= args@.take(i as int - 1).push(
                            args@[i as int - 1],
                        ));
                    }
                }
                proof {
                    assert(args@.take(args@.len() as int) =~= args@);
                }
                Line::Directive { args: a2 }
            },
            Line::Instruction { name, operands, size } => {
                let mut ops: Vec<Operand> = Vec::new();
                let mut i: usize = 0;
                while i < operands.len()
                    invariant
                        i <= operands@.len(),
                        ops@.len() == i,
                        forall|j: int| 0 <= j < i ==> ops@[j]@ == operands@[j]@,
                    decreases operands@.len() - i,
                {
                    ops.push(operands[i].clone());
                    i = i + 1;
                }
                let ghost ops_s = ops;
                let res = Line::Instruction { name: name.clone(), operands: ops, size: *size };
                proof {
                    assert forall|k: int| 0 <= k < ops_view(ops_s@).len() implies ops_view(ops_s@)[k]
                        == ops_view(operands@)[k] by {
                        assert(ops_s@[k]@ == operands@[k]@);
                    }
                    assert(ops_view(ops_s@) =~= ops_view(operands@));
                }
                res
            },
            Line::Comment { content } => Line::Comment { content: content.clone() },
            Line::Empty => Line::Empty,
            Line::Unknown => Line::Unknown,
        }
    }
}

/// Classification of a whole line, before operand parsing.
#[derive(Debug, PartialEq)]
pub enum LineKind {
    Label,
    Directive,
    Instruction { size: Size, name: String },
    Comment,
    Empty,
    Unknown,
}

/// Model of a [`LineKind`].
#[verifier::ext_equal]
pub enum LineKindModel {
    Label,
    Directive,
    Instruction { size: Size, name: Seq<char> },
    Comment,
    Empty,
    Unknown,
}

impl View for LineKind {
    type V = LineKindModel;

    open spec fn view(&self) -> LineKindModel {
        match self {
            LineKind::Label => LineKindModel::Label,
            LineKind::Directive => LineKindModel::Directive,
            LineKind::Instruction { size, name } => LineKindModel::Instruction {
                size: *size,
                name: name@,
            },
            LineKind::Comment => LineKindModel::Comment,
            LineKind::Empty => LineKindModel::Empty,
            LineKind::Unknown => LineKindModel::Unknown,
        }
    }
}

/// One source line paired with its parse: the original trimmed text is kept
/// verbatim for diagnostics and round-tripping.
#[derive(Debug, PartialEq)]
pub struct ParsedLine {
    pub parsed: Line,
    pub line: String,
}

/// Model of a [`ParsedLine`].
#[verifier::ext_equal]
pub struct ParsedLineModel {
    pub parsed: LineModel,
    pub line: Seq<char>,
}

impl View for ParsedLine {
    type V = ParsedLineModel;

    open spec fn view(&self) -> ParsedLineModel {
        ParsedLineModel { parsed: self.parsed@, line: self.line@ }
    }
}

impl DeepView for ParsedLine {
    type V = ParsedLineModel;

    open spec fn deep_view(&self) -> ParsedLineModel {
        self.view()
    }
}

impl Clone for ParsedLine {
    fn clone(&self) -> (r: Self)
        ensures
            r@ == self@,
    {
        ParsedLine { parsed: self.parsed.clone(), line: self.line.clone() }
    }
}

/// Views of a sequence of parsed lines, elementwise.
pub open spec fn pls_view(l: Seq<ParsedLine>) -> Seq<ParsedLineModel> {
    Seq::new(
        l.len(),
        |i: int|
            if 0 <= i < l.len() {
                l[i]@
            } else {
                ParsedLineModel { parsed: LineModel::Empty, line: Seq::empty() }
            },
    )
}

/// Typed error of the register-decoding step: the token does not begin with a
/// recognized register letter.
#[derive(Debug, PartialEq)]
pub enum LexError {
    UnrecognizedRegister { token: String },
}

/// Model of a [`LexError`].
#[verifier::ext_equal]
pub enum LexErrorModel {
    UnrecognizedRegister { token: Seq<char> },
}

impl View for LexError {
    type V = LexErrorModel;

    open spec fn view(&self) -> LexErrorModel {
        match self {
            LexError::UnrecognizedRegister { token } => LexErrorModel::UnrecognizedRegister {
                token: token@,
            },
        }
    }
}

} // verus!
