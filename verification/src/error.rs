//! What can stop a write, and what has been written when it does.

use vstd::prelude::*;

verus! {

/// A type that cannot count the items of a list.
#[derive(Clone, Copy, Debug, PartialEq, Eq, Structural)]
pub enum IndexKind {
    Float,
    Double,
    List,
}

/// Where an invalid list index type was met.
#[derive(Clone, Copy, Debug, PartialEq, Eq, Structural)]
pub enum Stage {
    /// While the property line of the header was written.
    Header,
    /// While a list field of a binary row was written.
    Payload,
}

/// The failure of a caller's conversion into a canonical element, carried
/// through unchanged.
#[derive(Debug, PartialEq, Eq)]
pub struct ConversionError {
    pub message: String,
}

/// Why a write stopped.
#[derive(Debug, PartialEq, Eq)]
pub enum WriteError {
    /// A list declares an index type that is not an integer.
    InvalidListIndexType { found: IndexKind, stage: Stage },
    /// A list value stands under a property that is not declared a list.
    ListTypeExpected,
    /// A binary row has no value for a declared property.
    MissingProperty(String),
    /// The payload has no rows for a declared element.
    MissingElement(String),
    /// The conversion of a caller's element failed.
    Conversion(ConversionError),
}

/// The mathematical value of a `WriteError`.
pub enum Fault {
    InvalidListIndexType { found: IndexKind, stage: Stage },
    ListTypeExpected,
    MissingProperty(Seq<char>),
    MissingElement(Seq<char>),
    Conversion(Seq<char>),
}

impl View for ConversionError {
    type V = Seq<char>;

    open spec fn view(&self) -> Seq<char> {
        self.message@
    }
}

impl View for WriteError {
    type V = Fault;

    open spec fn view(&self) -> Fault {
        match self {
            WriteError::InvalidListIndexType { found, stage } => Fault::InvalidListIndexType {
                found: *found,
                stage: *stage,
            },
            WriteError::ListTypeExpected => Fault::ListTypeExpected,
            WriteError::MissingProperty(name) => Fault::MissingProperty(name@),
            WriteError::MissingElement(name) => Fault::MissingElement(name@),
            WriteError::Conversion(e) => Fault::Conversion(e@),
        }
    }
}

/// The effect of a write on the output: the bytes appended, and the fault
/// that stopped it, if one did. Bytes appended before a fault stay.
pub struct Emitted {
    pub bytes: Seq<u8>,
    pub fault: Option<Fault>,
}

impl Emitted {
    /// A write of `bytes` that cannot fail.
    pub open spec fn plain(bytes: Seq<u8>) -> Emitted {
        Emitted { bytes, fault: None }
    }

    /// A write that stops at once.
    pub open spec fn fail(fault: Fault) -> Emitted {
        Emitted { bytes: Seq::empty(), fault: Some(fault) }
    }

    /// This write followed by `next`, which runs only if this one did not
    /// stop.
    pub open spec fn followed_by(self, next: Emitted) -> Emitted {
        if self.fault is Some {
            self
        } else {
            Emitted { bytes: self.bytes + next.bytes, fault: next.fault }
        }
    }

    /// The first `n` of `parts`, one after the other.
    pub open spec fn first(parts: Seq<Emitted>, n: nat) -> Emitted
        decreases n,
    {
        if n == 0 {
            Emitted::plain(Seq::empty())
        } else {
            Emitted::first(parts, (n - 1) as nat).followed_by(parts[n - 1])
        }
    }

    /// All of `parts`, one after the other.
    pub open spec fn all(parts: Seq<Emitted>) -> Emitted {
        Emitted::first(parts, parts.len())
    }

    /// Whether `result` is what a write with this effect returns: the
    /// number of bytes on success, the fault otherwise.
    pub open spec fn reported_by(self, result: Result<usize, WriteError>) -> bool {
        match result {
            Ok(n) => self.fault is None && n == self.bytes.len(),
            Err(e) => self.fault == Some(e@),
        }
    }
}

/// Once a part has stopped the write, later parts add nothing.
pub proof fn lemma_stopped(parts: Seq<Emitted>, k: nat, n: nat)
    requires
        k <= n,
        Emitted::first(parts, k).fault is Some,
    ensures
        Emitted::first(parts, n) == Emitted::first(parts, k),
    decreases n,
{
    if k < n {
        lemma_stopped(parts, k, (n - 1) as nat);
    }
}

/// One more part has run after a prefix that did not stop: the output has
/// grown by that part's bytes, and if the part stopped, the whole stops as
/// the prefix with that part does.
pub proof fn lemma_next_part(parts: Seq<Emitted>, i: nat, start: Seq<u8>, now: Seq<u8>)
    requires
        i < parts.len(),
        Emitted::first(parts, i).fault is None,
        now == start + Emitted::first(parts, i).bytes + parts[i as int].bytes,
    ensures
        now == start + Emitted::first(parts, i + 1).bytes,
        Emitted::first(parts, i + 1).fault == parts[i as int].fault,
        parts[i as int].fault is Some ==> Emitted::all(parts) == Emitted::first(parts, i + 1),
{
    assert(start + Emitted::first(parts, i).bytes + parts[i as int].bytes =~= start + (
    Emitted::first(parts, i).bytes + parts[i as int].bytes));
    if parts[i as int].fault is Some {
        lemma_stopped(parts, i + 1, parts.len());
    }
}

/// A run of parts succeeds exactly when each part does, and a run that
/// stops reports the fault of one of its parts.
pub proof fn lemma_first_fault(parts: Seq<Emitted>, n: nat)
    requires
        n <= parts.len(),
    ensures
        Emitted::first(parts, n).fault is None <==> forall|i: int|
            0 <= i < n ==> (#[trigger] parts[i]).fault is None,
        Emitted::first(parts, n).fault is Some ==> exists|i: int|
            0 <= i < n && Emitted::first(parts, n).fault == (#[trigger] parts[i]).fault,
    decreases n,
{
    if n > 0 {
        let m = (n - 1) as nat;
        lemma_first_fault(parts, m);
        let before = Emitted::first(parts, m);
        if before.fault is Some {
            let i = choose|i: int| 0 <= i < m && before.fault == (#[trigger] parts[i]).fault;
            assert(0 <= i < n && Emitted::first(parts, n).fault == parts[i].fault);
        } else if parts[m as int].fault is Some {
            assert(0 <= m < n && Emitted::first(parts, n).fault == parts[m as int].fault);
        }
    }
}

impl WriteError {
    /// A sentence that names the error.
    pub fn message(&self) -> (text: String)
        ensures
            text@ == self@.message(),
    {
        match self {
            WriteError::InvalidListIndexType { found, stage } => match stage {
                Stage::Header => match found {
                    IndexKind::Float => "List index can not be of type float.".to_owned(),
                    IndexKind::Double => "List index can not be of type double.".to_owned(),
                    IndexKind::List => "List index can not be of type list.".to_owned(),
                },
                Stage::Payload => match found {
                    IndexKind::Float => {
                        "List index must have integer type, Float found.".to_owned()
                    },
                    IndexKind::Double => {
                        "List index must have integer type, Double found.".to_owned()
                    },
                    IndexKind::List => {
                        "List index must have integer type, List found.".to_owned()
                    },
                },
            },
            WriteError::ListTypeExpected => "Property definition must be of type List.".to_owned(),
            WriteError::MissingProperty(name) => {
                let mut text = "No value for property ".to_owned();
                text.append(name.as_str());
                text
            },
            WriteError::MissingElement(name) => {
                let mut text = "No payload for element ".to_owned();
                text.append(name.as_str());
                text
            },
            WriteError::Conversion(e) => e.message.clone(),
        }
    }
}

impl Fault {
    /// The sentence that names the fault.
    pub open spec fn message(self) -> Seq<char> {
        match self {
            Fault::InvalidListIndexType { found, stage } => match stage {
                Stage::Header => match found {
                    IndexKind::Float => "List index can not be of type float."@,
                    IndexKind::Double => "List index can not be of type double."@,
                    IndexKind::List => "List index can not be of type list."@,
                },
                Stage::Payload => match found {
                    IndexKind::Float => "List index must have integer type, Float found."@,
                    IndexKind::Double => "List index must have integer type, Double found."@,
                    IndexKind::List => "List index must have integer type, List found."@,
                },
            },
            Fault::ListTypeExpected => "Property definition must be of type List."@,
            Fault::MissingProperty(name) => "No value for property "@ + name,
            Fault::MissingElement(name) => "No payload for element "@ + name,
            Fault::Conversion(message) => message,
        }
    }
}

} // verus!
