use core::cmp::Ordering;
use vstd::prelude::*;
use vstd::std_specs::cmp::PartialEqSpec;
use vstd::std_specs::cmp::PartialEqSpecImpl;
use vstd::std_specs::cmp::PartialOrdSpecImpl;
use vstd::std_specs::convert::FromSpecImpl;

verus! {

/// The scheduling priority of a task: a byte, where a higher byte comes first.
///
/// `Low`, `Normal` and `High` are names for the bytes 64, 128 and 192, chosen
/// so that room is left for custom priorities below, between and above them.
/// Two priorities are equal, and compare, as their bytes do.
#[derive(Debug, Clone, Copy)]
pub enum TaskPriority {
    Low,
    Normal,
    High,
    Custom(u8),
}

impl TaskPriority {
    /// The byte that the priority stands for.
    pub open spec fn value(self) -> u8 {
        match self {
            TaskPriority::Low => 64,
            TaskPriority::Normal => 128,
            TaskPriority::High => 192,
            TaskPriority::Custom(other) => other,
        }
    }

    /// The priority that a byte stands for: the name where the byte has one.
    pub open spec fn of(value: u8) -> TaskPriority {
        if value == 64 {
            TaskPriority::Low
        } else if value == 128 {
            TaskPriority::Normal
        } else if value == 192 {
            TaskPriority::High
        } else {
            TaskPriority::Custom(value)
        }
    }

    /// How two priorities compare: as their bytes do.
    pub open spec fn ordering(self, other: TaskPriority) -> Ordering {
        if self.value() < other.value() {
            Ordering::Less
        } else if self.value() == other.value() {
            Ordering::Equal
        } else {
            Ordering::Greater
        }
    }

    /// The byte that the priority stands for.
    pub fn byte(&self) -> (b: u8)
        ensures
            b == self.value(),
    {
        match *self {
            TaskPriority::Low => 64,
            TaskPriority::Normal => 128,
            TaskPriority::High => 192,
            TaskPriority::Custom(other) => other,
        }
    }

    /// Compares two priorities by their bytes.
    pub fn cmp(&self, other: &Self) -> (o: Ordering)
        ensures
            o == self.ordering(*other),
    {
        let p: u8 = self.byte();
        let q: u8 = other.byte();
        if p < q {
            Ordering::Less
        } else if p == q {
            Ordering::Equal
        } else {
            Ordering::Greater
        }
    }
}

impl From<u8> for TaskPriority {
    fn from(value: u8) -> (p: Self)
        ensures
            p == TaskPriority::of(value),
    {
        match value {
            64 => Self::Low,
            128 => Self::Normal,
            192 => Self::High,
            other => Self::Custom(other),
        }
    }
}

impl FromSpecImpl<u8> for TaskPriority {
    open spec fn obeys_from_spec() -> bool {
        true
    }

    open spec fn from_spec(value: u8) -> Self {
        TaskPriority::of(value)
    }
}

impl From<TaskPriority> for u8 {
    fn from(value: TaskPriority) -> (b: u8)
        ensures
            b == value.value(),
    {
        value.byte()
    }
}

impl FromSpecImpl<TaskPriority> for u8 {
    open spec fn obeys_from_spec() -> bool {
        true
    }

    open spec fn from_spec(value: TaskPriority) -> u8 {
        value.value()
    }
}

impl PartialEq for TaskPriority {
    fn eq(&self, other: &Self) -> (r: bool) {
        self.byte() == other.byte()
    }
}

impl PartialEqSpecImpl for TaskPriority {
    open spec fn obeys_eq_spec() -> bool {
        true
    }

    open spec fn eq_spec(&self, other: &Self) -> bool {
        self.value() == other.value()
    }
}

impl Eq for TaskPriority {

}

impl PartialOrd for TaskPriority {
    fn partial_cmp(&self, other: &Self) -> (o: Option<Ordering>) {
        Some(self.cmp(other))
    }
}

impl PartialOrdSpecImpl for TaskPriority {
    open spec fn obeys_partial_cmp_spec() -> bool {
        true
    }

    open spec fn partial_cmp_spec(&self, other: &Self) -> Option<Ordering> {
        Some(self.ordering(*other))
    }
}

/// The order is reflexive: a priority compares equal to itself.
pub proof fn lemma_order_reflexive(a: TaskPriority)
    ensures
        a.ordering(a) == Ordering::Equal,
{
}

/// The order is total: of two priorities one is less, equal or greater, and
/// the other way round the answer is the mirrored one.
pub proof fn lemma_order_total(a: TaskPriority, b: TaskPriority)
    ensures
        a.ordering(b) == Ordering::Less <==> b.ordering(a) == Ordering::Greater,
        a.ordering(b) == Ordering::Equal <==> b.ordering(a) == Ordering::Equal,
        a.ordering(b) == Ordering::Greater <==> b.ordering(a) == Ordering::Less,
{
}

/// The order is antisymmetric: two priorities of which neither is above the
/// other stand for the same byte, and are equal.
pub proof fn lemma_order_antisymmetric(a: TaskPriority, b: TaskPriority)
    requires
        a.ordering(b) != Ordering::Greater,
        b.ordering(a) != Ordering::Greater,
    ensures
        a.value() == b.value(),
        PartialEqSpec::eq_spec(&a, &b),
        a.ordering(b) == Ordering::Equal,
{
}

/// The order is transitive.
pub proof fn lemma_order_transitive(a: TaskPriority, b: TaskPriority, c: TaskPriority)
    requires
        a.ordering(b) != Ordering::Greater,
        b.ordering(c) != Ordering::Greater,
    ensures
        a.ordering(c) != Ordering::Greater,
        a.ordering(b) == Ordering::Less || b.ordering(c) == Ordering::Less ==> a.ordering(c)
            == Ordering::Less,
{
}

/// A byte and its priority stand for each other, and a named priority is the
/// same as the custom priority of its byte.
pub proof fn lemma_byte_round_trip(byte: u8, priority: TaskPriority)
    ensures
        TaskPriority::of(byte).value() == byte,
        PartialEqSpec::eq_spec(&TaskPriority::of(priority.value()), &priority),
        PartialEqSpec::eq_spec(&TaskPriority::Custom(priority.value()), &priority),
{
}

/// Room is left around the names: every byte strictly between the bytes of
/// two neighbouring names is a priority strictly between them, and so are the
/// bytes below `Low` and above `High`. That makes 64 levels below `Low`, and
/// 63 in each of the three other gaps.
pub proof fn lemma_room_around_names(byte: u8)
    ensures
        byte < 64 ==> TaskPriority::of(byte).ordering(TaskPriority::Low) == Ordering::Less,
        64 < byte < 128 ==> TaskPriority::Low.ordering(TaskPriority::of(byte)) == Ordering::Less
            && TaskPriority::of(byte).ordering(TaskPriority::Normal) == Ordering::Less,
        128 < byte < 192 ==> TaskPriority::Normal.ordering(TaskPriority::of(byte))
            == Ordering::Less && TaskPriority::of(byte).ordering(TaskPriority::High)
            == Ordering::Less,
        192 < byte ==> TaskPriority::High.ordering(TaskPriority::of(byte)) == Ordering::Less,
{
}

} // verus!
