//! Connection records, the table parser and the monitor that owns the name cache.
use std::collections::HashMap;
use vstd::prelude::*;
use vstd::utf8::encode_utf8;
use crate::address::{decode_endpoint, endpoint_spec, or_zero};
use crate::digits::{parse_unsigned, parse_unsigned_spec};
use crate::process::{
    entries_view, entry_name, entry_pid, holds_socket, owner_name, resolve, resolve_from,
    socket_inode, socket_inode_of, ProcessEntry, ProcessEntryView,
};
use crate::state::{classify_state, state_spec};
use crate::text::{lines, lines_of, string_from_chars, trim, words, words_of};

verus! {

broadcast use vstd::std_specs::hash::group_hash_axioms;

/// One observed socket.
#[derive(Debug, Clone)]
pub struct Connection {
    pub protocol: String,
    pub local_address: String,
    pub local_port: u16,
    pub remote_address: String,
    pub remote_port: u16,
    pub state: String,
    pub pid: Option<u32>,
    pub process_name: Option<String>,
}

pub struct ConnectionView {
    pub protocol: Seq<char>,
    pub local_address: Seq<char>,
    pub local_port: u16,
    pub remote_address: Seq<char>,
    pub remote_port: u16,
    pub state: Seq<char>,
    pub pid: Option<u32>,
    pub process_name: Option<Seq<char>>,
}

pub open spec fn opt_text(o: Option<String>) -> Option<Seq<char>> {
    match o {
        Some(s) => Some(s@),
        None => None,
    }
}

impl View for Connection {
    type V = ConnectionView;

    open spec fn view(&self) -> ConnectionView {
        ConnectionView {
            protocol: self.protocol@,
            local_address: self.local_address@,
            local_port: self.local_port,
            remote_address: self.remote_address@,
            remote_port: self.remote_port,
            state: self.state@,
            pid: self.pid,
            process_name: opt_text(self.process_name),
        }
    }
}

pub open spec fn connections_view(v: Seq<Connection>) -> Seq<ConnectionView> {
    v.map_values(|c: Connection| c@)
}

/// The connection that a row of at least ten fields describes.
#[verifier::opaque]
pub open spec fn row_spec(
    fields: Seq<Seq<char>>,
    protocol: Seq<char>,
    procs: Seq<ProcessEntryView>,
) -> ConnectionView {
    let local = endpoint_spec(encode_utf8(fields[1]));
    let remote = endpoint_spec(encode_utf8(fields[2]));
    let inode = or_zero(parse_unsigned_spec(encode_utf8(fields[9]), 10, 0x1_0000_0000));
    let owner = resolve(procs, inode);
    ConnectionView {
        protocol,
        local_address: local.0,
        local_port: local.1 as u16,
        remote_address: remote.0,
        remote_port: remote.1 as u16,
        state: state_spec(encode_utf8(fields[3]), encode_utf8(protocol)),
        pid: owner.0,
        process_name: owner.1,
    }
}

/// The fields of the given lines that have at least ten, in order.
pub open spec fn table_rows(lines: Seq<Seq<char>>) -> Seq<Seq<Seq<char>>>
    decreases lines.len(),
{
    if lines.len() == 0 {
        Seq::empty()
    } else {
        let prev = table_rows(lines.drop_last());
        let f = words_of(lines.last());
        if f.len() >= 10 {
            prev.push(f)
        } else {
            prev
        }
    }
}

/// The rows of a table after its header line.
pub open spec fn data_rows(content: Seq<char>) -> Seq<Seq<Seq<char>>> {
    let ls = lines_of(content);
    if ls.len() == 0 {
        Seq::empty()
    } else {
        table_rows(ls.drop_first())
    }
}

/// The connections that a table describes.
pub open spec fn table_spec(
    content: Seq<char>,
    protocol: Seq<char>,
    procs: Seq<ProcessEntryView>,
) -> Seq<ConnectionView> {
    data_rows(content).map_values(|f: Seq<Seq<char>>| row_spec(f, protocol, procs))
}

/// The name cache after the successful resolutions among `conns`, in order.
pub open spec fn cache_after(cache: Map<u32, Seq<char>>, conns: Seq<ConnectionView>) -> Map<
    u32,
    Seq<char>,
>
    decreases conns.len(),
{
    if conns.len() == 0 {
        cache
    } else {
        remember_spec(cache_after(cache, conns.drop_last()), conns.last())
    }
}

/// The name cache after one connection: a resolved owner is remembered.
pub open spec fn remember_spec(cache: Map<u32, Seq<char>>, c: ConnectionView) -> Map<u32, Seq<char>> {
    match (c.pid, c.process_name) {
        (Some(p), Some(n)) => cache.insert(p, n),
        _ => cache,
    }
}

proof fn lemma_cache_after_concat(
    cache: Map<u32, Seq<char>>,
    a: Seq<ConnectionView>,
    b: Seq<ConnectionView>,
)
    ensures
        cache_after(cache, a + b) == cache_after(cache_after(cache, a), b),
    decreases b.len(),
{
    if b.len() == 0 {
        assert(a + b =~= a);
    } else {
        lemma_cache_after_concat(cache, a, b.drop_last());
        assert((a + b).drop_last() =~= a + b.drop_last());
    }
}

/// The four socket tables, each as text where it could be read.
pub struct ConnectionTables {
    pub tcp: Option<String>,
    pub tcp6: Option<String>,
    pub udp: Option<String>,
    pub udp6: Option<String>,
}

pub open spec fn source_spec(
    content: Option<String>,
    protocol: Seq<char>,
    procs: Seq<ProcessEntryView>,
) -> Seq<ConnectionView> {
    match content {
        Some(c) => table_spec(c@, protocol, procs),
        None => Seq::empty(),
    }
}

/// The snapshot of all four tables: TCP before UDP, IPv4 before IPv6.
pub open spec fn snapshot_spec(t: ConnectionTables, procs: Seq<ProcessEntryView>) -> Seq<
    ConnectionView,
> {
    source_spec(t.tcp, "TCP"@, procs) + source_spec(t.tcp6, "TCP6"@, procs) + source_spec(
        t.udp,
        "UDP"@,
        procs,
    ) + source_spec(t.udp6, "UDP6"@, procs)
}

/// Reads the socket tables and finds the process behind each socket.
pub struct NetworkMonitor {
    process_cache: HashMap<u32, String>,
}

impl NetworkMonitor {
    /// The names resolved so far, by process id.
    pub closed spec fn cache(&self) -> Map<u32, Seq<char>> {
        self.process_cache@.map_values(|s: String| s@)
    }

    pub fn new() -> (r: Self)
        ensures
            r.cache() == Map::<u32, Seq<char>>::empty(),
    {
        let r = NetworkMonitor { process_cache: HashMap::new() };
        assert(r.cache() =~= Map::<u32, Seq<char>>::empty());
        r
    }

    /// The trimmed command name of a process entry.
    pub fn get_process_name(&self, entry: &ProcessEntry) -> (r: Option<String>)
        ensures
            opt_text(r) == entry_name(entry@),
    {
        match &entry.comm {
            Some(c) => Some(trim(c.as_str())),
            None => None,
        }
    }

    /// The name of the entry's process if one of its descriptors is the socket.
    pub fn get_process_name_by_inode(&self, entry: &ProcessEntry, target_inode: u32) -> (r:
        Option<String>)
        ensures
            opt_text(r) == owner_name(entry@, target_inode as nat),
    {
        let ghost e = entry@;
        let mut j: usize = 0;
        while j < entry.fd_targets.len()
            invariant
                j <= entry.fd_targets.len(),
                e == entry@,
                forall|k: int|
                    0 <= k < j ==> #[trigger] socket_inode(encode_utf8(e.fd_targets[k])) != Some(
                        target_inode as nat,
                    ),
            decreases entry.fd_targets.len() - j,
        {
            let found = socket_inode_of(entry.fd_targets[j].as_str());
            if found == Some(target_inode as u64) {
                assert(socket_inode(encode_utf8(e.fd_targets[j as int])) == Some(
                    target_inode as nat,
                ));
                return self.get_process_name(entry);
            }
            j = j + 1;
        }
        assert(!holds_socket(e, target_inode as nat));
        None
    }

    fn remember(&mut self, pid: u32, name: String)
        ensures
            final(self).cache() == old(self).cache().insert(pid, name@),
    {
        self.process_cache.insert(pid, name);
        assert(self.cache() =~= old(self).cache().insert(pid, name@));
    }

    /// The id and name of the entry's process if the entry is a process that holds
    /// the socket and has a readable name.
    fn entry_owner(&self, entry: &ProcessEntry, inode: u32) -> (r: Option<(u32, String)>)
        ensures
            match r {
                Some((p, n)) => entry_pid(entry@) == Some(p as nat) && owner_name(entry@, inode as nat)
                    == Some(n@),
                None => entry_pid(entry@) is None || owner_name(entry@, inode as nat) is None,
            },
    {
        match parse_unsigned(entry.name.as_str().as_bytes(), 10, 0x1_0000_0000) {
            Some(pid) => match self.get_process_name_by_inode(entry, inode) {
                Some(name) => Some((pid as u32, name)),
                None => None,
            },
            None => None,
        }
    }

    /// The process that holds a socket inode, remembered in the name cache when found.
    pub fn get_process_info(&mut self, inode: u32, processes: &Vec<ProcessEntry>) -> (r: (
        Option<u32>,
        Option<String>,
    ))
        ensures
            (r.0, opt_text(r.1)) == resolve(entries_view(processes@), inode as nat),
            final(self).cache() == match (r.0, opt_text(r.1)) {
                (Some(p), Some(n)) => old(self).cache().insert(p, n),
                _ => old(self).cache(),
            },
    {
        let ghost procs = entries_view(processes@);
        if inode == 0 {
            return (None, None);
        }
        let mut i: usize = 0;
        while i < processes.len()
            invariant
                i <= processes.len(),
                procs == entries_view(processes@),
                inode != 0,
                resolve_from(procs, inode as nat, 0) == resolve_from(procs, inode as nat, i as int),
                self.cache() == old(self).cache(),
            decreases processes.len() - i,
        {
            assert(procs[i as int] == processes@[i as int]@);
            match self.entry_owner(&processes[i], inode) {
                Some((pid, name)) => {
                    assert(resolve_from(procs, inode as nat, i as int) == (
                        Some(pid),
                        Some(name@),
                    ));
                    self.remember(pid, name.clone());
                    return (Some(pid), Some(name));
                },
                None => {},
            }
            i = i + 1;
        }
        (None, None)
    }

    /// The address text and port of an `address:port` token.
    pub fn parse_address(&self, addr_str: &str) -> (r: (String, u16))
        ensures
            r.0@ == endpoint_spec(encode_utf8(addr_str@)).0,
            r.1 as nat == endpoint_spec(encode_utf8(addr_str@)).1,
    {
        let (chars, port) = decode_endpoint(addr_str.as_bytes());
        (string_from_chars(&chars), port)
    }

    /// The state of a row of the given protocol; always empty for UDP.
    pub fn parse_state(&self, state_hex: &str, protocol: &str) -> (r: String)
        ensures
            r@ == state_spec(encode_utf8(state_hex@), encode_utf8(protocol@)),
    {
        classify_state(state_hex.as_bytes(), protocol.as_bytes())
    }

    fn parse_row(&mut self, fields: &Vec<String>, protocol: &str, processes: &Vec<ProcessEntry>) -> (r:
        Connection)
        requires
            fields.len() >= 10,
        ensures
            r@ == row_spec(
                fields@.map_values(|s: String| s@),
                protocol@,
                entries_view(processes@),
            ),
            final(self).cache() == remember_spec(old(self).cache(), r@),
    {
        let ghost fv = fields@.map_values(|s: String| s@);
        reveal(row_spec);
        let local = self.parse_address(fields[1].as_str());
        let remote = self.parse_address(fields[2].as_str());
        let state = self.parse_state(fields[3].as_str(), protocol);
        let inode: u32 = match parse_unsigned(fields[9].as_str().as_bytes(), 10, 0x1_0000_0000) {
            Some(v) => v as u32,
            None => 0,
        };
        assert(inode as nat == or_zero(parse_unsigned_spec(encode_utf8(fv[9]), 10, 0x1_0000_0000)));
        let (pid, process_name) = self.get_process_info(inode, processes);
        let r = Connection {
            protocol: protocol.to_owned(),
            local_address: local.0,
            local_port: local.1,
            remote_address: remote.0,
            remote_port: remote.1,
            state,
            pid,
            process_name,
        };
        r
    }

    /// The connections of one socket table: the header line is skipped, and lines of
    /// fewer than ten fields are left out.
    pub fn parse_proc_net_file(
        &mut self,
        content: &str,
        protocol: &str,
        processes: &Vec<ProcessEntry>,
    ) -> (r: Vec<Connection>)
        ensures
            connections_view(r@) == table_spec(content@, protocol@, entries_view(processes@)),
            final(self).cache() == cache_after(old(self).cache(), connections_view(r@)),
    {
        let ghost procs = entries_view(processes@);
        let ghost all = lines_of(content@);
        let ls = lines(content);
        let mut out: Vec<Connection> = Vec::new();
        assert(connections_view(out@) =~= Seq::<ConnectionView>::empty());
        if ls.len() == 0 {
            assert(table_spec(content@, protocol@, procs) =~= Seq::<ConnectionView>::empty());
            return out;
        }
        let mut i: usize = 1;
        assert(all.subrange(1, 1) =~= Seq::<Seq<char>>::empty());
        while i < ls.len()
            invariant
                1 <= i <= ls.len(),
                ls@.len() == all.len(),
                forall|k: int| 0 <= k < ls@.len() ==> #[trigger] ls@[k]@ == all[k],
                all == lines_of(content@),
                procs == entries_view(processes@),
                connections_view(out@) == table_rows(all.subrange(1, i as int)).map_values(
                    |f: Seq<Seq<char>>| row_spec(f, protocol@, procs),
                ),
                self.cache() == cache_after(old(self).cache(), connections_view(out@)),
            decreases ls.len() - i,
        {
            let ghost before = connections_view(out@);
            let ghost sub = all.subrange(1, i + 1);
            assert(sub.drop_last() =~= all.subrange(1, i as int));
            assert(sub.last() == all[i as int]);
            let fields = words(ls[i].as_str());
            assert(fields@.map_values(|s: String| s@) =~= words_of(all[i as int]));
            if fields.len() >= 10 {
                let ghost mid = self.cache();
                let conn = self.parse_row(&fields, protocol, processes);
                out.push(conn);
                assert(connections_view(out@) =~= before.push(conn@));
                assert(table_rows(sub) == table_rows(all.subrange(1, i as int)).push(
                    words_of(all[i as int]),
                ));
                assert(connections_view(out@) =~= table_rows(sub).map_values(
                    |f: Seq<Seq<char>>| row_spec(f, protocol@, procs),
                ));
                assert(connections_view(out@).drop_last() =~= before);
                assert(cache_after(old(self).cache(), connections_view(out@)) == remember_spec(
                    cache_after(old(self).cache(), before),
                    conn@,
                ));
            }
            i = i + 1;
        }
        assert(all.subrange(1, all.len() as int) =~= all.drop_first());
        out
    }

    fn parse_source(
        &mut self,
        content: &Option<String>,
        protocol: &str,
        processes: &Vec<ProcessEntry>,
        out: &mut Vec<Connection>,
    )
        ensures
            connections_view(final(out)@) == connections_view(old(out)@) + source_spec(
                *content,
                protocol@,
                entries_view(processes@),
            ),
            final(self).cache() == cache_after(
                old(self).cache(),
                source_spec(*content, protocol@, entries_view(processes@)),
            ),
    {
        match content {
            Some(c) => {
                let ghost before = out@;
                let mut found = self.parse_proc_net_file(c.as_str(), protocol, processes);
                let ghost got = found@;
                out.append(&mut found);
                assert(connections_view(out@) =~= connections_view(before) + connections_view(
                    got,
                ));
            },
            None => {
                assert(connections_view(out@) =~= connections_view(out@) + Seq::<
                    ConnectionView,
                >::empty());
            },
        }
    }

    fn parse_tcp_connections(
        &mut self,
        tables: &ConnectionTables,
        processes: &Vec<ProcessEntry>,
        out: &mut Vec<Connection>,
    )
        ensures
            connections_view(final(out)@) == connections_view(old(out)@) + source_spec(
                tables.tcp,
                "TCP"@,
                entries_view(processes@),
            ) + source_spec(tables.tcp6, "TCP6"@, entries_view(processes@)),
            final(self).cache() == cache_after(
                old(self).cache(),
                source_spec(tables.tcp, "TCP"@, entries_view(processes@)) + source_spec(
                    tables.tcp6,
                    "TCP6"@,
                    entries_view(processes@),
                ),
            ),
    {
        let ghost procs = entries_view(processes@);
        self.parse_source(&tables.tcp, "TCP", processes, out);
        self.parse_source(&tables.tcp6, "TCP6", processes, out);
        proof {
            lemma_cache_after_concat(
                old(self).cache(),
                source_spec(tables.tcp, "TCP"@, procs),
                source_spec(tables.tcp6, "TCP6"@, procs),
            );
        }
    }

    fn parse_udp_connections(
        &mut self,
        tables: &ConnectionTables,
        processes: &Vec<ProcessEntry>,
        out: &mut Vec<Connection>,
    )
        ensures
            connections_view(final(out)@) == connections_view(old(out)@) + source_spec(
                tables.udp,
                "UDP"@,
                entries_view(processes@),
            ) + source_spec(tables.udp6, "UDP6"@, entries_view(processes@)),
            final(self).cache() == cache_after(
                old(self).cache(),
                source_spec(tables.udp, "UDP"@, entries_view(processes@)) + source_spec(
                    tables.udp6,
                    "UDP6"@,
                    entries_view(processes@),
                ),
            ),
    {
        let ghost procs = entries_view(processes@);
        self.parse_source(&tables.udp, "UDP", processes, out);
        self.parse_source(&tables.udp6, "UDP6", processes, out);
        proof {
            lemma_cache_after_concat(
                old(self).cache(),
                source_spec(tables.udp, "UDP"@, procs),
                source_spec(tables.udp6, "UDP6"@, procs),
            );
        }
    }

    /// A snapshot of every socket in the four tables, TCP before UDP and IPv4 before
    /// IPv6; a table that could not be read contributes nothing.
    pub fn get_connections(&mut self, tables: &ConnectionTables, processes: &Vec<ProcessEntry>) -> (r:
        Vec<Connection>)
        ensures
            connections_view(r@) == snapshot_spec(*tables, entries_view(processes@)),
            final(self).cache() == cache_after(old(self).cache(), connections_view(r@)),
    {
        let ghost procs = entries_view(processes@);
        let mut connections: Vec<Connection> = Vec::new();
        assert(connections_view(connections@) =~= Seq::<ConnectionView>::empty());
        self.parse_tcp_connections(tables, processes, &mut connections);
        let ghost tcp = connections_view(connections@);
        self.parse_udp_connections(tables, processes, &mut connections);
        proof {
            let udp = source_spec(tables.udp, "UDP"@, procs) + source_spec(tables.udp6, "UDP6"@, procs);
            assert(tcp =~= source_spec(tables.tcp, "TCP"@, procs) + source_spec(tables.tcp6, "TCP6"@, procs));
            lemma_cache_after_concat(old(self).cache(), tcp, udp);
            assert(connections_view(connections@) =~= snapshot_spec(*tables, procs));
            assert(connections_view(connections@) =~= tcp + udp);
        }
        connections
    }
}

/// A table of a header, one row of ten or more fields and one of fewer, in either
/// order, describes exactly one connection: the one of the full row.
pub proof fn lemma_short_row_ignored(
    content: Seq<char>,
    protocol: Seq<char>,
    procs: Seq<ProcessEntryView>,
    full: int,
)
    requires
        lines_of(content).len() == 3,
        full == 1 || full == 2,
        words_of(lines_of(content)[full]).len() >= 10,
        words_of(lines_of(content)[3 - full]).len() < 10,
    ensures
        table_spec(content, protocol, procs) == seq![
            row_spec(words_of(lines_of(content)[full]), protocol, procs),
        ],
{
    let ls = lines_of(content).drop_first();
    let one = ls.drop_last();
    assert(one.drop_last() =~= Seq::<Seq<char>>::empty());
    assert(ls.last() == lines_of(content)[2]);
    assert(one.last() == lines_of(content)[1]);
    assert(table_rows(one.drop_last()) == Seq::<Seq<Seq<char>>>::empty());
    if full == 1 {
        assert(table_rows(one) =~= seq![words_of(lines_of(content)[1])]);
    } else {
        assert(table_rows(one) =~= Seq::<Seq<Seq<char>>>::empty());
    }
    assert(table_rows(ls) =~= seq![words_of(lines_of(content)[full])]);
    assert(table_spec(content, protocol, procs) =~= seq![
        row_spec(words_of(lines_of(content)[full]), protocol, procs),
    ]);
}

proof fn lemma_table_protocol(content: Seq<char>, protocol: Seq<char>, procs: Seq<ProcessEntryView>)
    ensures
        forall|i: int|
            0 <= i < table_spec(content, protocol, procs).len() ==> (#[trigger] table_spec(
                content,
                protocol,
                procs,
            )[i]).protocol == protocol,
{
    reveal(row_spec);
}

/// Where neither UDP table can be read, the snapshot holds the TCP tables' connections
/// and no others.
pub proof fn lemma_absent_udp_sources(tables: ConnectionTables, procs: Seq<ProcessEntryView>)
    requires
        tables.udp is None,
        tables.udp6 is None,
    ensures
        snapshot_spec(tables, procs) == source_spec(tables.tcp, "TCP"@, procs) + source_spec(
            tables.tcp6,
            "TCP6"@,
            procs,
        ),
        forall|i: int|
            0 <= i < snapshot_spec(tables, procs).len() ==> (#[trigger] snapshot_spec(
                tables,
                procs,
            )[i]).protocol == "TCP"@ || snapshot_spec(tables, procs)[i].protocol == "TCP6"@,
{
    let tcp = source_spec(tables.tcp, "TCP"@, procs);
    let tcp6 = source_spec(tables.tcp6, "TCP6"@, procs);
    assert(snapshot_spec(tables, procs) =~= tcp + tcp6);
    if let Some(c) = tables.tcp {
        lemma_table_protocol(c@, "TCP"@, procs);
    }
    if let Some(c) = tables.tcp6 {
        lemma_table_protocol(c@, "TCP6"@, procs);
    }
    assert forall|i: int| 0 <= i < snapshot_spec(tables, procs).len() implies (#[trigger] snapshot_spec(
        tables,
        procs,
    )[i]).protocol == "TCP"@ || snapshot_spec(tables, procs)[i].protocol == "TCP6"@ by {
        if i < tcp.len() {
            assert(snapshot_spec(tables, procs)[i] == tcp[i]);
        } else {
            assert(snapshot_spec(tables, procs)[i] == tcp6[i - tcp.len()]);
        }
    }
}

} // verus!
