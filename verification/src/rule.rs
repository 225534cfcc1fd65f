//! The records that a rule dump is read into.

use vstd::prelude::*;

verus! {

/// What a line of a rule dump declares.
#[derive(Debug, Clone, Copy, PartialEq, Eq, Structural)]
pub enum Archive {
    /// The default policy of a built-in chain.
    Policy,
    /// A chain that the user made.
    NewChain,
    /// A rule at the end of a chain.
    Append,
}

/// A network interface that a rule asks for, or asks not to be.
#[derive(Debug, Clone, PartialEq, Eq)]
pub struct RIPTInterface {
    /// Whether the rule holds for every interface but this one.
    pub negate: bool,
    /// The name of the interface.
    pub value: String,
}

/// A flag of a rule that this crate does not interpret, kept as it was read.
#[derive(Debug, Clone, PartialEq, Eq)]
pub struct Extension {
    /// The name of the flag, without its dashes.
    pub name: String,
    /// The words that followed the name.
    pub values: Vec<String>,
    /// Whether a `!` stood before the flag.
    pub negate: bool,
}

/// One line of a rule dump.
#[derive(Debug, Clone, PartialEq, Eq)]
pub struct RIPTRule {
    /// The line as it was read.
    pub origin: String,
    /// The table that the line was read from.
    pub table: String,
    /// What the line declares.
    pub archive: Archive,
    /// The chain that it is about.
    pub chain: String,
    /// The interface that packets come in by.
    pub input: Option<RIPTInterface>,
    /// The interface that packets go out by.
    pub output: Option<RIPTInterface>,
    /// The protocol.
    pub protocol: String,
    /// The source port.
    pub sport: String,
    /// The destination port.
    pub dport: String,
    /// The target; empty where the line names none.
    pub jump: String,
    /// The flags that were not interpreted, in the order of the line.
    pub extensions: Vec<Extension>,
}

/// An interface constraint as plain values.
pub struct InterfaceView {
    pub negate: bool,
    pub value: Seq<char>,
}

/// A flag with its words as plain values.
pub struct FlagView {
    pub name: Seq<char>,
    pub values: Seq<Seq<char>>,
    pub negate: bool,
}

/// A rule as plain values.
pub struct RuleView {
    pub origin: Seq<char>,
    pub table: Seq<char>,
    pub archive: Archive,
    pub chain: Seq<char>,
    pub input: Option<InterfaceView>,
    pub output: Option<InterfaceView>,
    pub protocol: Seq<char>,
    pub sport: Seq<char>,
    pub dport: Seq<char>,
    pub jump: Seq<char>,
    pub extensions: Seq<FlagView>,
}

impl View for RIPTInterface {
    type V = InterfaceView;

    open spec fn view(&self) -> InterfaceView {
        InterfaceView { negate: self.negate, value: self.value@ }
    }
}

impl View for Extension {
    type V = FlagView;

    open spec fn view(&self) -> FlagView {
        FlagView { name: self.name@, values: self.values.deep_view(), negate: self.negate }
    }
}

/// An optional interface constraint as plain values.
pub open spec fn interface_view(interface: Option<RIPTInterface>) -> Option<InterfaceView> {
    match interface {
        Some(i) => Some(i@),
        None => None,
    }
}

impl View for RIPTRule {
    type V = RuleView;

    open spec fn view(&self) -> RuleView {
        RuleView {
            origin: self.origin@,
            table: self.table@,
            archive: self.archive,
            chain: self.chain@,
            input: interface_view(self.input),
            output: interface_view(self.output),
            protocol: self.protocol@,
            sport: self.sport@,
            dport: self.dport@,
            jump: self.jump@,
            extensions: Seq::new(self.extensions@.len(), |i: int| self.extensions@[i]@),
        }
    }
}

} // verus!
