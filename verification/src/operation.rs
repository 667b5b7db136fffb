//! The operation model: one value per instruction handed to the engine.

use crate::opid;
use vstd::prelude::*;

verus! {

/// A gate on one qubit.
#[derive(Debug, Clone, Copy, PartialEq, Eq, Structural)]
pub enum UnaryGate {
    X,
    Y,
    Z,
    H,
    S,
    Sdg,
    T,
    Tdg,
}

/// A gate on two qubits.
#[derive(Debug, Clone, Copy, PartialEq, Eq, Structural)]
pub enum BinaryGate {
    Cx,
}

/// One instruction. A value is built once, stored in a buffer and read when the buffer is sent.
#[derive(Debug, PartialEq, Eq)]
pub enum Operation {
    /// Start a fresh circuit.
    Init,
    /// A gate on the given qubit.
    Unary(UnaryGate, u32),
    /// A gate on a control and a target qubit, in that order.
    Binary(BinaryGate, u32, u32),
    /// Measure the qubit (first) into the slot (second).
    Measure(u32, u32),
    /// A line of script handed to the engine as it is.
    Raw(String),
}

/// What an [`Operation`] is, with the payload of `Raw` as a sequence of characters.
pub enum OperationView {
    Init,
    Unary(UnaryGate, u32),
    Binary(BinaryGate, u32, u32),
    Measure(u32, u32),
    Raw(Seq<char>),
}

impl View for Operation {
    type V = OperationView;

    open spec fn view(&self) -> OperationView {
        match *self {
            Operation::Init => OperationView::Init,
            Operation::Unary(g, q) => OperationView::Unary(g, q),
            Operation::Binary(g, c, t) => OperationView::Binary(g, c, t),
            Operation::Measure(q, s) => OperationView::Measure(q, s),
            Operation::Raw(text) => OperationView::Raw(text@),
        }
    }
}

impl DeepView for Operation {
    type V = OperationView;

    open spec fn deep_view(&self) -> OperationView {
        self@
    }
}

/// The identifier `lay` gives to a one-qubit gate.
pub open spec fn unary_opid(g: UnaryGate) -> u16 {
    match g {
        UnaryGate::X => 3,
        UnaryGate::Y => 4,
        UnaryGate::Z => 5,
        UnaryGate::H => 6,
        UnaryGate::S => 7,
        UnaryGate::Sdg => 8,
        UnaryGate::T => 9,
        UnaryGate::Tdg => 10,
    }
}

/// The identifier `lay` gives to a two-qubit gate.
pub open spec fn binary_opid(g: BinaryGate) -> u16 {
    match g {
        BinaryGate::Cx => 11,
    }
}

/// The identifier `lay` gives to an operation.
pub open spec fn operation_opid(op: OperationView) -> u16 {
    match op {
        OperationView::Init => 1,
        OperationView::Measure(_, _) => 2,
        OperationView::Unary(g, _) => unary_opid(g),
        OperationView::Binary(g, _, _) => binary_opid(g),
        OperationView::Raw(_) => 256,
    }
}

/// The operation that `lay` writes as an identifier alone.
pub open spec fn operation_from_empty(id: u16) -> Option<OperationView> {
    if id == 1 {
        Some(OperationView::Init)
    } else {
        None
    }
}

/// The operation that `lay` writes as an identifier and one qubit.
pub open spec fn operation_from_q(id: u16, q: u32) -> Option<OperationView> {
    if exists|g: UnaryGate| unary_opid(g) == id {
        Some(OperationView::Unary(choose|g: UnaryGate| unary_opid(g) == id, q))
    } else {
        None
    }
}

/// The operation that `lay` writes as an identifier and two qubits.
pub open spec fn operation_from_qq(id: u16, c: u32, t: u32) -> Option<OperationView> {
    if id == 11 {
        Some(OperationView::Binary(BinaryGate::Cx, c, t))
    } else {
        None
    }
}

/// The operation that `lay` writes as an identifier, a qubit and a slot.
pub open spec fn operation_from_qs(id: u16, q: u32, s: u32) -> Option<OperationView> {
    if id == 2 {
        Some(OperationView::Measure(q, s))
    } else {
        None
    }
}

/// The operation that `lay` writes as an identifier and a payload.
pub open spec fn operation_from_var(id: u16, payload: Seq<char>) -> Option<OperationView> {
    if id == 256 {
        Some(OperationView::Raw(payload))
    } else {
        None
    }
}

/// Two one-qubit gates with the same identifier are the same gate.
pub proof fn lemma_unary_opid_injective(a: UnaryGate, b: UnaryGate)
    requires
        unary_opid(a) == unary_opid(b),
    ensures
        a == b,
{
}

impl UnaryGate {
    /// The identifier of this gate.
    pub fn opid(self) -> (id: u16)
        ensures
            id == unary_opid(self),
    {
        match self {
            UnaryGate::X => opid::x(),
            UnaryGate::Y => opid::y(),
            UnaryGate::Z => opid::z(),
            UnaryGate::H => opid::h(),
            UnaryGate::S => opid::s(),
            UnaryGate::Sdg => opid::sdg(),
            UnaryGate::T => opid::t(),
            UnaryGate::Tdg => opid::tdg(),
        }
    }

    /// The one-qubit gate that has the given identifier, if there is one.
    pub fn from_opid(id: u16) -> (gate: Option<UnaryGate>)
        ensures
            match gate {
                Some(g) => unary_opid(g) == id,
                None => forall|g: UnaryGate| unary_opid(g) != id,
            },
    {
        if id == opid::x() {
            Some(UnaryGate::X)
        } else if id == opid::y() {
            Some(UnaryGate::Y)
        } else if id == opid::z() {
            Some(UnaryGate::Z)
        } else if id == opid::h() {
            Some(UnaryGate::H)
        } else if id == opid::s() {
            Some(UnaryGate::S)
        } else if id == opid::sdg() {
            Some(UnaryGate::Sdg)
        } else if id == opid::t() {
            Some(UnaryGate::T)
        } else if id == opid::tdg() {
            Some(UnaryGate::Tdg)
        } else {
            None
        }
    }
}

impl BinaryGate {
    /// The identifier of this gate.
    pub fn opid(self) -> (id: u16)
        ensures
            id == binary_opid(self),
    {
        match self {
            BinaryGate::Cx => opid::cx(),
        }
    }

    /// The two-qubit gate that has the given identifier, if there is one.
    pub fn from_opid(id: u16) -> (gate: Option<BinaryGate>)
        ensures
            match gate {
                Some(g) => binary_opid(g) == id,
                None => forall|g: BinaryGate| binary_opid(g) != id,
            },
    {
        if id == opid::cx() {
            Some(BinaryGate::Cx)
        } else {
            None
        }
    }
}

impl Clone for Operation {
    fn clone(&self) -> (copy: Operation)
        ensures
            copy@ == self@,
    {
        match self {
            Operation::Init => Operation::Init,
            Operation::Unary(g, q) => Operation::Unary(*g, *q),
            Operation::Binary(g, c, t) => Operation::Binary(*g, *c, *t),
            Operation::Measure(q, s) => Operation::Measure(*q, *s),
            Operation::Raw(text) => Operation::Raw(text.clone()),
        }
    }
}

impl Operation {
    /// The identifier of this operation.
    pub fn opid(&self) -> (id: u16)
        ensures
            id == operation_opid(self@),
    {
        match self {
            Operation::Init => opid::init(),
            Operation::Measure(_, _) => opid::meas(),
            Operation::Unary(g, _) => g.opid(),
            Operation::Binary(g, _, _) => g.opid(),
            Operation::Raw(_) => opid::userdef(),
        }
    }

    /// Reads an identifier without arguments: only the one for a fresh circuit names an
    /// operation.
    pub fn from_empty(id: u16) -> (op: Option<Operation>)
        ensures
            op.is_some() == operation_from_empty(id).is_some(),
            op matches Some(o) ==> Some(o@) == operation_from_empty(id),
    {
        if id == opid::init() {
            Some(Operation::Init)
        } else {
            None
        }
    }

    /// Reads an identifier with one qubit: a one-qubit gate, or nothing.
    pub fn from_q(id: u16, q: u32) -> (op: Option<Operation>)
        ensures
            op.is_some() == operation_from_q(id, q).is_some(),
            op matches Some(o) ==> Some(o@) == operation_from_q(id, q),
    {
        match UnaryGate::from_opid(id) {
            Some(g) => {
                proof {
                    let chosen = choose|g: UnaryGate| unary_opid(g) == id;
                    lemma_unary_opid_injective(g, chosen);
                }
                Some(Operation::Unary(g, q))
            },
            None => None,
        }
    }

    /// Reads an identifier with two qubits: a two-qubit gate on control `c` and target `t`, or
    /// nothing.
    pub fn from_qq(id: u16, c: u32, t: u32) -> (op: Option<Operation>)
        ensures
            op.is_some() == operation_from_qq(id, c, t).is_some(),
            op matches Some(o) ==> Some(o@) == operation_from_qq(id, c, t),
    {
        match BinaryGate::from_opid(id) {
            Some(g) => Some(Operation::Binary(g, c, t)),
            None => {
                assert(binary_opid(BinaryGate::Cx) != id);
                None
            },
        }
    }

    /// Reads an identifier with a qubit and a slot: a measurement, or nothing.
    pub fn from_qs(id: u16, q: u32, s: u32) -> (op: Option<Operation>)
        ensures
            op.is_some() == operation_from_qs(id, q, s).is_some(),
            op matches Some(o) ==> Some(o@) == operation_from_qs(id, q, s),
    {
        if id == opid::meas() {
            Some(Operation::Measure(q, s))
        } else {
            None
        }
    }

    /// Reads an identifier with a payload: a raw script line, or nothing.
    pub fn from_var(id: u16, payload: String) -> (op: Option<Operation>)
        ensures
            op.is_some() == operation_from_var(id, payload@).is_some(),
            op matches Some(o) ==> Some(o@) == operation_from_var(id, payload@),
    {
        if id == opid::userdef() {
            Some(Operation::Raw(payload))
        } else {
            None
        }
    }
}

/// The operation that hands `s` to the engine as one line of script.
pub fn raw_pyscript(s: String) -> (op: Operation)
    ensures
        op@ == OperationView::Raw(s@),
{
    Operation::Raw(s)
}

} // verus!
