use std::sync::Arc;
use vstd::prelude::*;
use vstd::string::StringExecFns;

use crate::model::ChannelModel;
use crate::shared::Shared;
use crate::state::State;

verus! {

pub open spec fn digit_char(d: nat) -> char {
    if d == 0 {
        '0'
    } else if d == 1 {
        '1'
    } else if d == 2 {
        '2'
    } else if d == 3 {
        '3'
    } else if d == 4 {
        '4'
    } else if d == 5 {
        '5'
    } else if d == 6 {
        '6'
    } else if d == 7 {
        '7'
    } else if d == 8 {
        '8'
    } else {
        '9'
    }
}

/// Decimal digits of `n`, most significant first.
pub open spec fn decimal(n: nat) -> Seq<char>
    decreases n,
{
    if n < 10 {
        seq![digit_char(n)]
    } else {
        decimal(n / 10) + seq![digit_char(n % 10)]
    }
}

pub open spec fn flag(b: bool) -> Seq<char> {
    if b {
        "true"@
    } else {
        "false"@
    }
}

/// One line per slot: `Seat(i): (reads, required, has_value)`.
pub open spec fn render_slot<T>(m: ChannelModel<T>, i: nat) -> Seq<char> {
    "Seat("@ + decimal(i) + "): ("@ + decimal(m.ring[i as int].reads) + ", "@ + decimal(
        m.ring[i as int].required,
    ) + ", "@ + flag(m.ring[i as int].val is Some) + ")\n"@
}

/// The lines of slots `0 .. k`.
pub open spec fn render_slots<T>(m: ChannelModel<T>, k: nat) -> Seq<char>
    decreases k,
{
    if k == 0 {
        Seq::empty()
    } else {
        render_slots(m, (k - 1) as nat) + render_slot(m, (k - 1) as nat)
    }
}

/// The tail, the number of consumers, then every slot.
pub open spec fn render<T>(m: ChannelModel<T>) -> Seq<char> {
    "Tail: "@ + decimal(m.tail) + "\nnum readers: "@ + decimal(m.readers) + "\n"@ + render_slots(
        m,
        m.len(),
    )
}

fn digit_str(d: usize) -> (r: &'static str)
    requires
        d < 10,
    ensures
        r@ == seq![digit_char(d as nat)],
{
    proof {
        reveal_strlit("0");
        reveal_strlit("1");
        reveal_strlit("2");
        reveal_strlit("3");
        reveal_strlit("4");
        reveal_strlit("5");
        reveal_strlit("6");
        reveal_strlit("7");
        reveal_strlit("8");
        reveal_strlit("9");
    }
    if d == 0 {
        "0"
    } else if d == 1 {
        "1"
    } else if d == 2 {
        "2"
    } else if d == 3 {
        "3"
    } else if d == 4 {
        "4"
    } else if d == 5 {
        "5"
    } else if d == 6 {
        "6"
    } else if d == 7 {
        "7"
    } else if d == 8 {
        "8"
    } else {
        "9"
    }
}

/// Appends the decimal digits of `n`.
pub fn push_decimal(s: &mut String, n: usize)
    ensures
        final(s)@ == old(s)@ + decimal(n as nat),
    decreases n,
{
    if n >= 10 {
        push_decimal(s, n / 10);
    }
    s.append(digit_str(n % 10));
    proof {
        assert(final(s)@ =~= old(s)@ + decimal(n as nat));
    }
}

fn push_flag(s: &mut String, b: bool)
    ensures
        final(s)@ == old(s)@ + flag(b),
{
    if b {
        s.append("true");
    } else {
        s.append("false");
    }
}

/// Renders the tail, the number of consumers and every slot of `state`.
pub fn render_state<T: Clone>(state: &State<T>) -> (r: String)
    requires
        state.wf(),
    ensures
        r@ == render(state@),
{
    let mut s = String::new();
    s.append("Tail: ");
    push_decimal(&mut s, state.tail());
    s.append("\nnum readers: ");
    push_decimal(&mut s, state.num_readers());
    s.append("\n");
    let ghost head = s@;
    let len = state.len();
    let mut i: usize = 0;
    while i < len
        invariant
            i <= len,
            len == state@.len(),
            state.wf(),
            s@ == head + render_slots(state@, i as nat),
        decreases len - i,
    {
        let (reads, required, has_value) = state.slot(i);
        let ghost before = s@;
        s.append("Seat(");
        push_decimal(&mut s, i);
        s.append("): (");
        push_decimal(&mut s, reads);
        s.append(", ");
        push_decimal(&mut s, required);
        s.append(", ");
        push_flag(&mut s, has_value);
        s.append(")\n");
        proof {
            assert(s@ =~= before + render_slot(state@, i as nat));
        }
        i = i + 1;
    }
    s
}

/// Read-only inspector of a channel's shared state.
pub struct Debug<T: Clone> {
    pub shared: Arc<Shared<T>>,
}

impl<T: Clone> Debug<T> {
    /// The tail, the number of consumers, and for each slot its reads, required
    /// reads and whether it holds a value, one line each.
    pub fn print_state(&self) -> (r: String)
        ensures
            exists|m: ChannelModel<T>| m.inv() && #[trigger] render(m) == r@,
    {
        self.shared.render()
    }
}

} // verus!
