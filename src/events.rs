//! The kernel's `struct epoll_event`: an event bitmask and a data union.

use crate::text::{decimal, join, push_decimal};
use vstd::prelude::*;

verus! {

// The event flags of `struct epoll_event`, in declaration order.
pub const EPOLLIN: u32 = 0x001;
pub const EPOLLPRI: u32 = 0x002;
pub const EPOLLOUT: u32 = 0x004;
pub const EPOLLRDNORM: u32 = 0x040;
pub const EPOLLRDBAND: u32 = 0x080;
pub const EPOLLWRNORM: u32 = 0x100;
pub const EPOLLWRBAND: u32 = 0x200;
pub const EPOLLMSG: u32 = 0x400;
pub const EPOLLERR: u32 = 0x008;
pub const EPOLLHUP: u32 = 0x010;
pub const EPOLLRDHUP: u32 = 0x2000;
pub const EPOLLEXCLUSIVE: u32 = 0x1000_0000;
pub const EPOLLWAKEUP: u32 = 0x2000_0000;
pub const EPOLLONESHOT: u32 = 0x4000_0000;
pub const EPOLLET: u32 = 0x8000_0000;

/// Number of named event flags.
pub const FLAG_COUNT: usize = 15;

/// The bit of the `i`-th named flag, in declaration order.
pub open spec fn flag_bit(i: int) -> u32 {
    if i == 0 {
        EPOLLIN
    } else if i == 1 {
        EPOLLPRI
    } else if i == 2 {
        EPOLLOUT
    } else if i == 3 {
        EPOLLRDNORM
    } else if i == 4 {
        EPOLLRDBAND
    } else if i == 5 {
        EPOLLWRNORM
    } else if i == 6 {
        EPOLLWRBAND
    } else if i == 7 {
        EPOLLMSG
    } else if i == 8 {
        EPOLLERR
    } else if i == 9 {
        EPOLLHUP
    } else if i == 10 {
        EPOLLRDHUP
    } else if i == 11 {
        EPOLLEXCLUSIVE
    } else if i == 12 {
        EPOLLWAKEUP
    } else if i == 13 {
        EPOLLONESHOT
    } else {
        EPOLLET
    }
}

/// The name of the `i`-th named flag, in declaration order.
pub open spec fn flag_name(i: int) -> Seq<char> {
    if i == 0 {
        "EPOLLIN"@
    } else if i == 1 {
        "EPOLLPRI"@
    } else if i == 2 {
        "EPOLLOUT"@
    } else if i == 3 {
        "EPOLLRDNORM"@
    } else if i == 4 {
        "EPOLLRDBAND"@
    } else if i == 5 {
        "EPOLLWRNORM"@
    } else if i == 6 {
        "EPOLLWRBAND"@
    } else if i == 7 {
        "EPOLLMSG"@
    } else if i == 8 {
        "EPOLLERR"@
    } else if i == 9 {
        "EPOLLHUP"@
    } else if i == 10 {
        "EPOLLRDHUP"@
    } else if i == 11 {
        "EPOLLEXCLUSIVE"@
    } else if i == 12 {
        "EPOLLWAKEUP"@
    } else if i == 13 {
        "EPOLLONESHOT"@
    } else {
        "EPOLLET"@
    }
}

/// Whether every bit of `flag` is set in `bits`.
pub open spec fn has_flag(bits: u32, flag: u32) -> bool {
    bits & flag == flag
}

/// The names of the flags among the first `n` that `bits` holds, in declaration order.
pub open spec fn names_upto(bits: u32, n: nat) -> Seq<Seq<char>>
    decreases n,
{
    if n == 0 {
        Seq::empty()
    } else {
        let prev = names_upto(bits, (n - 1) as nat);
        if has_flag(bits, flag_bit(n - 1)) {
            prev.push(flag_name(n - 1))
        } else {
            prev
        }
    }
}

/// The names of all the flags that `bits` holds, in declaration order.
pub open spec fn flag_names(bits: u32) -> Seq<Seq<char>> {
    names_upto(bits, FLAG_COUNT as nat)
}

/// The text of an event mask: its flag names joined by `" | "`.
pub open spec fn events_text(bits: u32) -> Seq<char> {
    join(flag_names(bits), " | "@)
}

/// No two named flags share a name.
pub proof fn lemma_flag_names_distinct(i: int, j: int)
    requires
        0 <= i < FLAG_COUNT,
        0 <= j < FLAG_COUNT,
        i != j,
    ensures
        flag_name(i) != flag_name(j),
{
    reveal_strlit("EPOLLIN");
    reveal_strlit("EPOLLPRI");
    reveal_strlit("EPOLLOUT");
    reveal_strlit("EPOLLRDNORM");
    reveal_strlit("EPOLLRDBAND");
    reveal_strlit("EPOLLWRNORM");
    reveal_strlit("EPOLLWRBAND");
    reveal_strlit("EPOLLMSG");
    reveal_strlit("EPOLLERR");
    reveal_strlit("EPOLLHUP");
    reveal_strlit("EPOLLRDHUP");
    reveal_strlit("EPOLLEXCLUSIVE");
    reveal_strlit("EPOLLWAKEUP");
    reveal_strlit("EPOLLONESHOT");
    reveal_strlit("EPOLLET");
    let a = flag_name(i);
    let b = flag_name(j);
    if a.len() == b.len() {
        assert(a[5] != b[5] || a[6] != b[6] || a[7] != b[7] || a[a.len() - 1] != b[b.len() - 1]);
    }
}

/// The names among the first `n` flags: each flag's name is listed exactly
/// when `bits` holds the flag, and no name is listed twice.
proof fn lemma_names_upto_exact(bits: u32, n: nat)
    requires
        n <= FLAG_COUNT,
    ensures
        names_upto(bits, n).no_duplicates(),
        forall|i: int|
            0 <= i < FLAG_COUNT ==> (#[trigger] names_upto(bits, n).contains(flag_name(i)) <==> (i
                < n && has_flag(bits, flag_bit(i)))),
    decreases n,
{
    if n > 0 {
        let m = (n - 1) as nat;
        lemma_names_upto_exact(bits, m);
        let prev = names_upto(bits, m);
        assert forall|i: int| 0 <= i < FLAG_COUNT && i != m implies flag_name(i) != flag_name(
            m as int,
        ) by {
            lemma_flag_names_distinct(i, m as int);
        }
        if has_flag(bits, flag_bit(m as int)) {
            let cur = prev.push(flag_name(m as int));
            assert(names_upto(bits, n) == cur);
            assert forall|i: int| 0 <= i < FLAG_COUNT implies (#[trigger] cur.contains(flag_name(i))
                <==> (i < n && has_flag(bits, flag_bit(i)))) by {
                if i == m {
                    assert(cur[prev.len() as int] == flag_name(i));
                    assert(cur.contains(flag_name(i)));
                } else {
                    assert(flag_name(i) != flag_name(m as int));
                    if cur.contains(flag_name(i)) {
                        let k = choose|k: int| 0 <= k < cur.len() && cur[k] == flag_name(i);
                        assert(k < prev.len());
                        assert(prev[k] == flag_name(i));
                        assert(prev.contains(flag_name(i)));
                    }
                    if prev.contains(flag_name(i)) {
                        let k = choose|k: int| 0 <= k < prev.len() && prev[k] == flag_name(i);
                        assert(cur[k] == flag_name(i));
                        assert(cur.contains(flag_name(i)));
                    }
                    assert(cur.contains(flag_name(i)) == prev.contains(flag_name(i)));
                }
            }
            assert forall|a: int, b: int|
                0 <= a < cur.len() && 0 <= b < cur.len() && a != b implies cur[a] != cur[b] by {
                if a == prev.len() as int {
                    assert(prev.contains(cur[b]));
                } else if b == prev.len() as int {
                    assert(prev.contains(cur[a]));
                }
            }
        }
    }
}

/// Decoding a mask lists, in declaration order, the name of each named flag
/// that the mask holds, exactly once, and no other name.
pub proof fn lemma_flag_names_exact(bits: u32)
    ensures
        flag_names(bits).no_duplicates(),
        forall|i: int|
            0 <= i < FLAG_COUNT ==> (#[trigger] flag_names(bits).contains(flag_name(i))
                <==> has_flag(bits, flag_bit(i))),
{
    lemma_names_upto_exact(bits, FLAG_COUNT as nat);
}

/// The `i`-th named flag: its bit and its name.
fn flag_at(i: usize) -> (r: (u32, &'static str))
    requires
        i < FLAG_COUNT,
    ensures
        r.0 == flag_bit(i as int),
        r.1@ == flag_name(i as int),
{
    match i {
        0 => (EPOLLIN, "EPOLLIN"),
        1 => (EPOLLPRI, "EPOLLPRI"),
        2 => (EPOLLOUT, "EPOLLOUT"),
        3 => (EPOLLRDNORM, "EPOLLRDNORM"),
        4 => (EPOLLRDBAND, "EPOLLRDBAND"),
        5 => (EPOLLWRNORM, "EPOLLWRNORM"),
        6 => (EPOLLWRBAND, "EPOLLWRBAND"),
        7 => (EPOLLMSG, "EPOLLMSG"),
        8 => (EPOLLERR, "EPOLLERR"),
        9 => (EPOLLHUP, "EPOLLHUP"),
        10 => (EPOLLRDHUP, "EPOLLRDHUP"),
        11 => (EPOLLEXCLUSIVE, "EPOLLEXCLUSIVE"),
        12 => (EPOLLWAKEUP, "EPOLLWAKEUP"),
        13 => (EPOLLONESHOT, "EPOLLONESHOT"),
        _ => (EPOLLET, "EPOLLET"),
    }
}

/// Appends to `s` the names joined by `sep`.
pub fn push_joined(s: &mut String, names: &Vec<&'static str>, sep: &str)
    ensures
        final(s)@ == old(s)@ + join(names@.map_values(|n: &'static str| n@), sep@),
{
    let ghost views = names@.map_values(|n: &'static str| n@);
    let mut i: usize = 0;
    while i < names.len()
        invariant
            0 <= i <= names@.len(),
            views == names@.map_values(|n: &'static str| n@),
            s@ == old(s)@ + join(views.subrange(0, i as int), sep@),
        decreases names@.len() - i,
    {
        let ghost before = s@;
        if i > 0 {
            s.append(sep);
        }
        s.append(names[i]);
        proof {
            let prefix = views.subrange(0, i + 1);
            assert(prefix.drop_last() =~= views.subrange(0, i as int));
            assert(prefix.last() == names@[i as int]@);
            if i == 0 {
                assert(join(prefix, sep@) == prefix[0]);
            }
        }
        i = i + 1;
        assert(s@ =~= old(s)@ + join(views.subrange(0, i as int), sep@));
    }
    assert(views.subrange(0, names@.len() as int) =~= views);
}

/// A set of epoll event flags, held as the raw bitmask.
///
/// Bits without a name are kept, so the mask survives a round trip unchanged.
#[derive(Clone, Copy, Debug, Default, PartialEq, Eq)]
pub struct Events {
    pub bits: u32,
}

impl Events {
    /// The flags of `bits`, every bit retained.
    pub fn from_bits_retain(bits: u32) -> (r: Events)
        ensures
            r.bits == bits,
    {
        Events { bits }
    }

    /// The raw bitmask.
    pub fn bits(&self) -> (r: u32)
        ensures
            r == self.bits,
    {
        self.bits
    }

    /// Whether every bit of `flag` is set.
    pub fn contains(&self, flag: u32) -> (r: bool)
        ensures
            r == has_flag(self.bits, flag),
    {
        self.bits & flag == flag
    }

    /// The names of the flags that are set, in declaration order, each once.
    pub fn names(&self) -> (r: Vec<&'static str>)
        ensures
            r@.map_values(|n: &'static str| n@) == flag_names(self.bits),
    {
        let mut out: Vec<&'static str> = Vec::new();
        let mut i: usize = 0;
        while i < FLAG_COUNT
            invariant
                0 <= i <= FLAG_COUNT,
                out@.map_values(|n: &'static str| n@) == names_upto(self.bits, i as nat),
            decreases FLAG_COUNT - i,
        {
            let (bit, name) = flag_at(i);
            if self.contains(bit) {
                out.push(name);
            }
            i = i + 1;
            assert(out@.map_values(|n: &'static str| n@) =~= names_upto(self.bits, i as nat));
        }
        out
    }

    /// The flag names joined by `" | "`; empty where no named flag is set.
    pub fn render(&self) -> (r: String)
        ensures
            r@ == events_text(self.bits),
    {
        let names = self.names();
        let mut s = String::new();
        proof {
            reveal_strlit(" | ");
        }
        push_joined(&mut s, &names, " | ");
        assert(s@ =~= events_text(self.bits));
        s
    }
}

/// The text of the data union, read both ways: `{ u32: A, u64: B }`.
pub open spec fn data_text(data: u64) -> Seq<char> {
    "{ u32: "@ + decimal(data as nat % 0x1_0000_0000) + ", u64: "@ + decimal(data as nat) + " }"@
}

/// The text of an event: `{events={ FLAGS }, data={ u32: A, u64: B }}`.
pub open spec fn event_text(events: u32, data: u64) -> Seq<char> {
    "{events={ "@ + events_text(events) + " }, data="@ + data_text(data) + "}"@
}

/// The kernel's `epoll_data` union. The wire carries no tag, so both of its
/// readings are offered: the whole 64 bits, or the low 32 of them.
#[derive(Clone, Copy, Debug, PartialEq, Eq)]
pub struct EpollData {
    pub uint64: u64,
}

impl EpollData {
    /// The union read as its `u32` member: the low 32 bits.
    pub fn as_u32(&self) -> (r: u32)
        ensures
            r as nat == self.uint64 as nat % 0x1_0000_0000,
    {
        (self.uint64 % 0x1_0000_0000) as u32
    }

    /// The union read as its `u64` member.
    pub fn as_u64(&self) -> (r: u64)
        ensures
            r == self.uint64,
    {
        self.uint64
    }

    /// Both readings: `{ u32: A, u64: B }`.
    pub fn render(&self) -> (r: String)
        ensures
            r@ == data_text(self.uint64),
    {
        let mut s = String::new();
        s.append("{ u32: ");
        push_decimal(&mut s, self.as_u32() as u64);
        s.append(", u64: ");
        push_decimal(&mut s, self.uint64);
        s.append(" }");
        assert(s@ =~= data_text(self.uint64));
        s
    }
}

/// A decoded `struct epoll_event`.
#[derive(Clone, Copy, Debug, PartialEq, Eq)]
pub struct EpollEvent {
    pub events: Events,
    pub data: EpollData,
}

impl EpollEvent {
    /// `{events={ FLAGS }, data={ u32: A, u64: B }}`.
    pub fn render(&self) -> (r: String)
        ensures
            r@ == event_text(self.events.bits, self.data.uint64),
    {
        let mut s = String::new();
        s.append("{events={ ");
        let flags = self.events.render();
        s.append(flags.as_str());
        s.append(" }, data=");
        let data = self.data.render();
        s.append(data.as_str());
        s.append("}");
        assert(s@ =~= event_text(self.events.bits, self.data.uint64));
        s
    }
}

} // verus!
