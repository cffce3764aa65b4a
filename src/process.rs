//! Processes as seen in the process directory, and which of them holds a socket.
use vstd::prelude::*;
use vstd::utf8::encode_utf8;
use crate::digits::{parse_unsigned, parse_unsigned_spec};
use crate::text::trimmed;

verus! {

/// One entry of the process directory, as read at one moment.
pub struct ProcessEntry {
    /// The entry's name; a process's entry is named by its decimal id.
    pub name: String,
    /// The targets of the entry's descriptor links that are valid text, in order.
    pub fd_targets: Vec<String>,
    /// The process's one-line command-name record, where it could be read.
    pub comm: Option<String>,
}

pub struct ProcessEntryView {
    pub name: Seq<char>,
    pub fd_targets: Seq<Seq<char>>,
    pub comm: Option<Seq<char>>,
}

impl View for ProcessEntry {
    type V = ProcessEntryView;

    open spec fn view(&self) -> ProcessEntryView {
        ProcessEntryView {
            name: self.name@,
            fd_targets: self.fd_targets@.map_values(|s: String| s@),
            comm: match self.comm {
                Some(c) => Some(c@),
                None => None,
            },
        }
    }
}

pub open spec fn entries_view(v: Seq<ProcessEntry>) -> Seq<ProcessEntryView> {
    v.map_values(|e: ProcessEntry| e@)
}

/// The bytes of `socket:[`.
pub open spec fn socket_prefix() -> Seq<u8> {
    seq![115u8, 111, 99, 107, 101, 116, 58, 91]
}

pub open spec fn has_socket_prefix(b: Seq<u8>) -> bool {
    b.len() >= 8 && b.subrange(0, 8) == socket_prefix()
}

/// `b` with every leading `socket:[` removed.
pub open spec fn strip_socket_prefixes(b: Seq<u8>) -> Seq<u8>
    decreases b.len(),
{
    if has_socket_prefix(b) {
        strip_socket_prefixes(b.subrange(8, b.len() as int))
    } else {
        b
    }
}

/// `b` with every trailing `]` removed.
pub open spec fn strip_brackets(b: Seq<u8>) -> Seq<u8>
    decreases b.len(),
{
    if b.len() > 0 && b.last() == 93 {
        strip_brackets(b.drop_last())
    } else {
        b
    }
}

/// The socket inode that a descriptor link target names, if it is `socket:[N]`.
pub open spec fn socket_inode(target: Seq<u8>) -> Option<nat> {
    if has_socket_prefix(target) {
        parse_unsigned_spec(strip_brackets(strip_socket_prefixes(target)), 10, 0x1_0000_0000)
    } else {
        None
    }
}

/// The process id that an entry's name gives, if it is a number.
pub open spec fn entry_pid(e: ProcessEntryView) -> Option<nat> {
    parse_unsigned_spec(encode_utf8(e.name), 10, 0x1_0000_0000)
}

pub open spec fn holds_socket(e: ProcessEntryView, inode: nat) -> bool {
    exists|j: int|
        0 <= j < e.fd_targets.len() && #[trigger] socket_inode(encode_utf8(e.fd_targets[j]))
            == Some(inode)
}

/// The trimmed command name of an entry, where it could be read.
pub open spec fn entry_name(e: ProcessEntryView) -> Option<Seq<char>> {
    match e.comm {
        Some(c) => Some(trimmed(c)),
        None => None,
    }
}

/// The name of the process of `e` if it holds the socket and its name can be read.
pub open spec fn owner_name(e: ProcessEntryView, inode: nat) -> Option<Seq<char>> {
    if holds_socket(e, inode) {
        entry_name(e)
    } else {
        None
    }
}

/// The first entry from `i` on that has a process id, holds the socket and has a
/// readable name.
pub open spec fn resolve_from(procs: Seq<ProcessEntryView>, inode: nat, i: int) -> (
    Option<u32>,
    Option<Seq<char>>,
)
    decreases procs.len() - i,
{
    if i < 0 || i >= procs.len() {
        (None, None)
    } else if entry_pid(procs[i]) is Some && owner_name(procs[i], inode) is Some {
        (Some(entry_pid(procs[i])->0 as u32), owner_name(procs[i], inode))
    } else {
        resolve_from(procs, inode, i + 1)
    }
}

/// The owner of a socket inode; inode 0 stands for no socket and has none.
pub open spec fn resolve(procs: Seq<ProcessEntryView>, inode: nat) -> (
    Option<u32>,
    Option<Seq<char>>,
) {
    if inode == 0 {
        (None, None)
    } else {
        resolve_from(procs, inode, 0)
    }
}

fn socket_prefix_at(b: &[u8], lo: usize) -> (r: bool)
    requires
        lo <= b.len(),
    ensures
        r == has_socket_prefix(b@.subrange(lo as int, b@.len() as int)),
{
    let ghost t = b@.subrange(lo as int, b@.len() as int);
    if b.len() - lo < 8 {
        return false;
    }
    let r = b[lo] == 115 && b[lo + 1] == 111 && b[lo + 2] == 99 && b[lo + 3] == 107 && b[lo + 4]
        == 101 && b[lo + 5] == 116 && b[lo + 6] == 58 && b[lo + 7] == 91;
    assert(r == (t.subrange(0, 8) =~= socket_prefix()));
    r
}

/// The socket inode named by a descriptor link target.
pub fn socket_inode_of(target: &str) -> (r: Option<u64>)
    ensures
        crate::digits::opt_nat(r) == socket_inode(encode_utf8(target@)),
{
    let b = target.as_bytes();
    if !socket_prefix_at(b, 0) {
        assert(b@.subrange(0, b@.len() as int) =~= b@);
        return None;
    }
    assert(b@.subrange(0, b@.len() as int) =~= b@);
    let mut lo: usize = 0;
    while socket_prefix_at(b, lo)
        invariant
            lo <= b.len(),
            strip_socket_prefixes(b@) == strip_socket_prefixes(
                b@.subrange(lo as int, b@.len() as int),
            ),
        decreases b.len() - lo,
    {
        let ghost t = b@.subrange(lo as int, b@.len() as int);
        assert(t.subrange(8, t.len() as int) =~= b@.subrange(lo + 8, b@.len() as int));
        lo = lo + 8;
    }
    let mut hi: usize = b.len();
    let ghost rest = b@.subrange(lo as int, b@.len() as int);
    assert(rest.subrange(0, rest.len() as int) =~= rest);
    while hi > lo && b[hi - 1] == 93
        invariant
            lo <= hi <= b.len(),
            rest == b@.subrange(lo as int, b@.len() as int),
            strip_brackets(rest) == strip_brackets(b@.subrange(lo as int, hi as int)),
        decreases hi,
    {
        assert(b@.subrange(lo as int, hi as int).drop_last() =~= b@.subrange(
            lo as int,
            hi - 1,
        ));
        hi = hi - 1;
    }
    parse_unsigned(&b[lo..hi], 10, 0x1_0000_0000)
}

} // verus!
