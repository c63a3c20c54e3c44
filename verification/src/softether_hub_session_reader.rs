//! Decoding of the management tool's two tabular outputs — the session
//! summary listing and the per-session detail table — and the argument
//! protocol for invoking the tool non-interactively.

use vstd::prelude::*;
use vstd::string::StringExecFns;

use crate::softether_reader::{
    bytes_stripped, conn_first, conn_ok, conn_second, count_stripped, SoftEtherError,
    SoftEtherReader,
};
use crate::text::{dec_value, is_count_text, str_eq};

verus! {

/// The rows of `src` parsed as comma-separated tabular text, every row a
/// record (no header row is skipped) and rows free to differ in length;
/// `None` when the bytes cannot be parsed as such a table. The result
/// depends on the bytes alone.
pub uninterp spec fn csv_rows(src: Seq<u8>) -> Option<Seq<Seq<Seq<char>>>>;

/// Relies on csv::ReaderBuilder and csv::Reader::records: with header
/// skipping off and flexible record lengths on, `records` yields every
/// comma-separated row of the input in order, one string per column, and
/// fails only when a record cannot be read (for instance on invalid
/// UTF-8); the outcome is a function of the input bytes alone.
#[verifier::external_body]
fn read_csv_rows(src: &[u8]) -> (r: Result<Vec<Vec<String>>, String>)
    ensures
        r matches Ok(rows) ==> csv_rows(src@) == Some(rows.deep_view()),
        r is Err ==> csv_rows(src@) is None,
{
    let mut reader =
        csv::ReaderBuilder::new().has_headers(false).flexible(true).from_reader(src);
    let mut rows: Vec<Vec<String>> = Vec::new();
    for record in reader.records() {
        match record {
            Ok(rec) => rows.push(rec.iter().map(|f| f.to_string()).collect()),
            Err(e) => return Err(e.to_string()),
        }
    }
    Ok(rows)
}

/// Column `i` of a row, the empty text when the row is shorter.
pub open spec fn column(row: Seq<Seq<char>>, i: int) -> Seq<char> {
    if 0 <= i < row.len() {
        row[i]
    } else {
        Seq::empty()
    }
}

/// One row of the session summary listing.
#[derive(Debug)]
pub struct HubSessionListEntry {
    pub name: String,
    pub vlan_id: String,
    pub location: String,
    pub user: String,
    pub source: String,
    pub connections: (u64, u64),
    pub transfer_bytes: u64,
    pub transfer_packets: u64,
}

/// A fully assembled session record: the eight summary fields copied
/// verbatim from the listing row, plus the ten counters of the detail
/// table.
#[derive(Debug)]
pub struct HubSession {
    pub name: String,
    pub vlan_id: String,
    pub location: String,
    pub user: String,
    pub source: String,
    pub connections: (u64, u64),
    pub transfer_bytes: u64,
    pub transfer_packets: u64,
    pub outgoing_data_size: u64,
    pub outgoing_unicast_packets: u64,
    pub outgoing_unicast_bytes: u64,
    pub outgoing_broadcast_packets: u64,
    pub outgoing_broadcast_bytes: u64,
    pub incoming_data_size: u64,
    pub incoming_unicast_packets: u64,
    pub incoming_unicast_bytes: u64,
    pub incoming_broadcast_packets: u64,
    pub incoming_broadcast_bytes: u64,
}

impl HubSession {
    /// A record with every text field empty and every counter zero, the
    /// state of a detail record before any field is set.
    pub fn new() -> (r: HubSession)
        ensures
            r.name@ == Seq::<char>::empty(),
            r.vlan_id@ == Seq::<char>::empty(),
            r.location@ == Seq::<char>::empty(),
            r.user@ == Seq::<char>::empty(),
            r.source@ == Seq::<char>::empty(),
            r.connections == (0u64, 0u64),
            r.transfer_bytes == 0,
            r.transfer_packets == 0,
            r.outgoing_data_size == 0,
            r.outgoing_unicast_packets == 0,
            r.outgoing_unicast_bytes == 0,
            r.outgoing_broadcast_packets == 0,
            r.outgoing_broadcast_bytes == 0,
            r.incoming_data_size == 0,
            r.incoming_unicast_packets == 0,
            r.incoming_unicast_bytes == 0,
            r.incoming_broadcast_packets == 0,
            r.incoming_broadcast_bytes == 0,
    {
        HubSession {
            name: String::new(),
            vlan_id: String::new(),
            location: String::new(),
            user: String::new(),
            source: String::new(),
            connections: (0, 0),
            transfer_bytes: 0,
            transfer_packets: 0,
            outgoing_data_size: 0,
            outgoing_unicast_packets: 0,
            outgoing_unicast_bytes: 0,
            outgoing_broadcast_packets: 0,
            outgoing_broadcast_bytes: 0,
            incoming_data_size: 0,
            incoming_unicast_packets: 0,
            incoming_unicast_bytes: 0,
            incoming_broadcast_packets: 0,
            incoming_broadcast_bytes: 0,
        }
    }
}

/// The numeric columns of a summary row all decode.
pub open spec fn summary_row_ok(row: Seq<Seq<char>>) -> bool {
    &&& conn_ok(column(row, 5))
    &&& is_count_text(bytes_stripped(column(row, 6)))
    &&& is_count_text(count_stripped(column(row, 7)))
}

/// The entry holds exactly the decoded columns of the row: text columns
/// verbatim, numeric columns through the locale normalizer.
pub open spec fn entry_matches_row(e: HubSessionListEntry, row: Seq<Seq<char>>) -> bool {
    &&& e.name@ == column(row, 0)
    &&& e.vlan_id@ == column(row, 1)
    &&& e.location@ == column(row, 2)
    &&& e.user@ == column(row, 3)
    &&& e.source@ == column(row, 4)
    &&& e.connections.0 as nat == conn_first(column(row, 5))
    &&& e.connections.1 as nat == conn_second(column(row, 5))
    &&& e.transfer_bytes as nat == dec_value(bytes_stripped(column(row, 6)))
    &&& e.transfer_packets as nat == dec_value(count_stripped(column(row, 7)))
}

pub open spec fn list_rows_ok(rows: Seq<Seq<Seq<char>>>) -> bool {
    forall|i: int| 0 <= i < rows.len() ==> summary_row_ok(#[trigger] rows[i])
}

pub open spec fn entries_match_rows(es: Seq<HubSessionListEntry>, rows: Seq<Seq<Seq<char>>>) -> bool {
    &&& es.len() == rows.len()
    &&& forall|i: int| 0 <= i < rows.len() ==> entry_matches_row(#[trigger] es[i], rows[i])
}

/// Column `i` of an executable row, the empty string when the row is
/// shorter.
fn column_string(row: &Vec<String>, i: usize) -> (r: String)
    ensures
        r@ == column(row.deep_view(), i as int),
{
    if i < row.len() {
        proof {
            assert(row.deep_view()[i as int] == row@[i as int]@);
        }
        row[i].clone()
    } else {
        String::new()
    }
}

/// Decode one summary row by strictly positional column index: 0 name,
/// 1 vlanId, 2 location, 3 user, 4 source, 5 connections, 6 transfer
/// bytes, 7 transfer packets.
pub fn decode_summary_row(row: &Vec<String>) -> (r: Result<HubSessionListEntry, SoftEtherError>)
    ensures
        summary_row_ok(row.deep_view()) ==> (r matches Ok(e) && entry_matches_row(
            e,
            row.deep_view(),
        )),
        !summary_row_ok(row.deep_view()) ==> (r matches Err(e) && e is FormatError),
{
    let name = column_string(row, 0);
    let vlan_id = column_string(row, 1);
    let location = column_string(row, 2);
    let user = column_string(row, 3);
    let source = column_string(row, 4);
    let conn_text = column_string(row, 5);
    let bytes_text = column_string(row, 6);
    let packets_text = column_string(row, 7);
    let connections = match SoftEtherReader::decode_connections(conn_text.as_str()) {
        Ok(p) => p,
        Err(e) => return Err(e),
    };
    let transfer_bytes = match SoftEtherReader::decode_bytes(bytes_text.as_str()) {
        Ok(v) => v,
        Err(e) => return Err(e),
    };
    let transfer_packets = match SoftEtherReader::decode_packets(packets_text.as_str()) {
        Ok(v) => v,
        Err(e) => return Err(e),
    };
    Ok(
        HubSessionListEntry {
            name,
            vlan_id,
            location,
            user,
            source,
            connections,
            transfer_bytes,
            transfer_packets,
        },
    )
}

pub struct SoftEtherHubSessionReader;

impl SoftEtherHubSessionReader {
    /// Decode the session summary listing: one entry per row, in row
    /// order, all-or-nothing. A row whose numeric columns fail to decode
    /// aborts the whole operation; no partial list is ever returned.
    pub fn decode_hub_sessions(src: &[u8]) -> (r: Result<
        Vec<HubSessionListEntry>,
        SoftEtherError,
    >)
        ensures
            csv_rows(src@) is None ==> (r matches Err(e) && e is CsvSyntaxError),
            csv_rows(src@) matches Some(rows) ==> {
                &&& list_rows_ok(rows) ==> (r matches Ok(v) && entries_match_rows(v@, rows))
                &&& !list_rows_ok(rows) ==> (r matches Err(e) && e is FormatError)
            },
    {
        let rows = match read_csv_rows(src) {
            Ok(rows) => rows,
            Err(m) => {
                let mut t = String::from_str("could not parse tabular output: ");
                t.append(m.as_str());
                return Err(SoftEtherError::CsvSyntaxError(t));
            },
        };
        let ghost model_rows = rows.deep_view();
        let mut entries: Vec<HubSessionListEntry> = Vec::new();
        let mut i: usize = 0;
        while i < rows.len()
            invariant
                csv_rows(src@) == Some(model_rows),
                model_rows == rows.deep_view(),
                i <= rows@.len(),
                entries@.len() == i,
                forall|k: int| 0 <= k < i ==> summary_row_ok(#[trigger] model_rows[k]),
                forall|k: int|
                    0 <= k < i ==> entry_matches_row(#[trigger] entries@[k], model_rows[k]),
            decreases rows@.len() - i,
        {
            proof {
                assert(model_rows[i as int] == rows@[i as int].deep_view());
            }
            match decode_summary_row(&rows[i]) {
                Ok(e) => entries.push(e),
                Err(e) => {
                    proof {
                        assert(!summary_row_ok(model_rows[i as int]));
                    }
                    return Err(e);
                },
            }
            i = i + 1;
        }
        Ok(entries)
    }

    /// The exact positional argument sequence for one non-interactive
    /// invocation of the management tool: `server`, `/SERVER`,
    /// `/HUB:<hub>`, `/PASSWORD:<password>`, `/CSV`, `/CMD`, the command
    /// name, then the command's own arguments.
    pub fn invocation_args(
        server: &str,
        hub: &str,
        password: &str,
        command: &str,
        command_args: &Vec<String>,
    ) -> (r: Vec<String>)
        ensures
            r@.len() == 7 + command_args@.len(),
            r@[0]@ == server@,
            r@[1]@ == "/SERVER"@,
            r@[2]@ == "/HUB:"@ + hub@,
            r@[3]@ == "/PASSWORD:"@ + password@,
            r@[4]@ == "/CSV"@,
            r@[5]@ == "/CMD"@,
            r@[6]@ == command@,
            forall|i: int| 0 <= i < command_args@.len() ==> r@[7 + i]@ == command_args@[i]@,
    {
        let mut r: Vec<String> = Vec::new();
        r.push(String::from_str(server));
        r.push(String::from_str("/SERVER"));
        let mut hub_arg = String::from_str("/HUB:");
        hub_arg.append(hub);
        r.push(hub_arg);
        let mut password_arg = String::from_str("/PASSWORD:");
        password_arg.append(password);
        r.push(password_arg);
        r.push(String::from_str("/CSV"));
        r.push(String::from_str("/CMD"));
        r.push(String::from_str(command));
        let mut i: usize = 0;
        while i < command_args.len()
            invariant
                i <= command_args@.len(),
                r@.len() == 7 + i,
                r@[0]@ == server@,
                r@[1]@ == "/SERVER"@,
                r@[2]@ == "/HUB:"@ + hub@,
                r@[3]@ == "/PASSWORD:"@ + password@,
                r@[4]@ == "/CSV"@,
                r@[5]@ == "/CMD"@,
                r@[6]@ == command@,
                forall|k: int| 0 <= k < i ==> r@[7 + k]@ == command_args@[k]@,
            decreases command_args@.len() - i,
        {
            r.push(command_args[i].clone());
            i = i + 1;
        }
        r
    }

    /// Arguments for the summary listing invocation.
    pub fn session_list_args(server: &str, hub: &str, password: &str) -> (r: Vec<String>)
        ensures
            r@.len() == 7,
            r@[0]@ == server@,
            r@[1]@ == "/SERVER"@,
            r@[2]@ == "/HUB:"@ + hub@,
            r@[3]@ == "/PASSWORD:"@ + password@,
            r@[4]@ == "/CSV"@,
            r@[5]@ == "/CMD"@,
            r@[6]@ == "SessionList"@,
    {
        let command_args: Vec<String> = Vec::new();
        SoftEtherHubSessionReader::invocation_args(
            server,
            hub,
            password,
            "SessionList",
            &command_args,
        )
    }

    /// Arguments for one per-session detail invocation, keyed by the
    /// session's name.
    pub fn session_detail_args(server: &str, hub: &str, password: &str, session_name: &str) -> (r:
        Vec<String>)
        ensures
            r@.len() == 8,
            r@[0]@ == server@,
            r@[1]@ == "/SERVER"@,
            r@[2]@ == "/HUB:"@ + hub@,
            r@[3]@ == "/PASSWORD:"@ + password@,
            r@[4]@ == "/CSV"@,
            r@[5]@ == "/CMD"@,
            r@[6]@ == "SessionGet"@,
            r@[7]@ == session_name@,
    {
        let mut command_args: Vec<String> = Vec::new();
        command_args.push(String::from_str(session_name));
        let r = SoftEtherHubSessionReader::invocation_args(
            server,
            hub,
            password,
            "SessionGet",
            &command_args,
        );
        proof {
            assert(r@[7 + 0int]@ == command_args@[0]@);
        }
        r
    }
}

/// The single control byte written to the tool's input channel right
/// after launch. The tool opens an interactive password prompt on its
/// input even when given a password argument; this end-of-transmission
/// byte interrupts that prompt, and without it the process blocks
/// indefinitely.
pub const INTERRUPT_BYTE: u8 = 4;

/// A label whose value is decoded as a byte counter.
pub open spec fn is_bytes_label(l: Seq<char>) -> bool {
    ||| l == "Outgoing Data Size"@
    ||| l == "Outgoing Unicast Total Size"@
    ||| l == "Outgoing Broadcast Total Size"@
    ||| l == "Incoming Data Size"@
    ||| l == "Incoming Unicast Total Size"@
    ||| l == "Incoming Broadcast Total Size"@
}

/// A label whose value is decoded as a packet counter.
pub open spec fn is_count_label(l: Seq<char>) -> bool {
    ||| l == "Outgoing Unicast Packets"@
    ||| l == "Outgoing Broadcast Packets"@
    ||| l == "Incoming Unicast Packets"@
    ||| l == "Incoming Broadcast Packets"@
}

pub open spec fn recognized_label(l: Seq<char>) -> bool {
    is_bytes_label(l) || is_count_label(l)
}

/// A detail row decodes: its value is a valid counter whenever its label
/// is recognized. A row with an unrecognized label always passes,
/// whatever its value text.
pub open spec fn detail_row_ok(row: Seq<Seq<char>>) -> bool {
    &&& is_bytes_label(column(row, 0)) ==> is_count_text(bytes_stripped(column(row, 1)))
    &&& is_count_label(column(row, 0)) ==> is_count_text(count_stripped(column(row, 1)))
}

pub open spec fn detail_rows_ok(rows: Seq<Seq<Seq<char>>>) -> bool {
    forall|i: int| 0 <= i < rows.len() ==> detail_row_ok(#[trigger] rows[i])
}

/// The value text of the last row carrying `label`, if any: later rows
/// overwrite earlier ones.
pub open spec fn last_value(rows: Seq<Seq<Seq<char>>>, label: Seq<char>) -> Option<Seq<char>>
    decreases rows.len(),
{
    if rows.len() == 0 {
        None
    } else if column(rows.last(), 0) == label {
        Some(column(rows.last(), 1))
    } else {
        last_value(rows.drop_last(), label)
    }
}

/// The decoded byte counter a detail table assigns under `label`, zero
/// when no row carries it.
pub open spec fn detail_bytes_field(rows: Seq<Seq<Seq<char>>>, label: Seq<char>) -> nat {
    match last_value(rows, label) {
        Some(v) => dec_value(bytes_stripped(v)),
        None => 0,
    }
}

/// The decoded packet counter a detail table assigns under `label`, zero
/// when no row carries it.
pub open spec fn detail_count_field(rows: Seq<Seq<Seq<char>>>, label: Seq<char>) -> nat {
    match last_value(rows, label) {
        Some(v) => dec_value(count_stripped(v)),
        None => 0,
    }
}

proof fn lemma_last_value_step(rows: Seq<Seq<Seq<char>>>, i: int, label: Seq<char>)
    requires
        0 <= i < rows.len(),
    ensures
        last_value(rows.take(i + 1), label) == (if column(rows[i], 0) == label {
            Some(column(rows[i], 1))
        } else {
            last_value(rows.take(i), label)
        }),
{
    assert(rows.take(i + 1).drop_last() =~= rows.take(i));
    assert(rows.take(i + 1).last() == rows[i]);
}

/// Apply one detail row to the record under construction: a recognized
/// label assigns its decoded value into the corresponding field, an
/// unrecognized label changes nothing.
#[verifier::rlimit(60)]
pub fn apply_detail_row(status: &mut HubSession, row: &Vec<String>) -> (r: Result<
    (),
    SoftEtherError,
>)
    ensures
        r is Ok ==> {
            let rdv = row.deep_view();
            &&& detail_row_ok(rdv)
            &&& final(status).name == old(status).name
            &&& final(status).vlan_id == old(status).vlan_id
            &&& final(status).location == old(status).location
            &&& final(status).user == old(status).user
            &&& final(status).source == old(status).source
            &&& final(status).connections == old(status).connections
            &&& final(status).transfer_bytes == old(status).transfer_bytes
            &&& final(status).transfer_packets == old(status).transfer_packets
            &&& final(status).outgoing_data_size as nat == (if column(rdv, 0)
                == "Outgoing Data Size"@ {
                dec_value(bytes_stripped(column(rdv, 1)))
            } else {
                old(status).outgoing_data_size as nat
            })
            &&& final(status).outgoing_unicast_packets as nat == (if column(rdv, 0)
                == "Outgoing Unicast Packets"@ {
                dec_value(count_stripped(column(rdv, 1)))
            } else {
                old(status).outgoing_unicast_packets as nat
            })
            &&& final(status).outgoing_unicast_bytes as nat == (if column(rdv, 0)
                == "Outgoing Unicast Total Size"@ {
                dec_value(bytes_stripped(column(rdv, 1)))
            } else {
                old(status).outgoing_unicast_bytes as nat
            })
            &&& final(status).outgoing_broadcast_packets as nat == (if column(rdv, 0)
                == "Outgoing Broadcast Packets"@ {
                dec_value(count_stripped(column(rdv, 1)))
            } else {
                old(status).outgoing_broadcast_packets as nat
            })
            &&& final(status).outgoing_broadcast_bytes as nat == (if column(rdv, 0)
                == "Outgoing Broadcast Total Size"@ {
                dec_value(bytes_stripped(column(rdv, 1)))
            } else {
                old(status).outgoing_broadcast_bytes as nat
            })
            &&& final(status).incoming_data_size as nat == (if column(rdv, 0)
                == "Incoming Data Size"@ {
                dec_value(bytes_stripped(column(rdv, 1)))
            } else {
                old(status).incoming_data_size as nat
            })
            &&& final(status).incoming_unicast_packets as nat == (if column(rdv, 0)
                == "Incoming Unicast Packets"@ {
                dec_value(count_stripped(column(rdv, 1)))
            } else {
                old(status).incoming_unicast_packets as nat
            })
            &&& final(status).incoming_unicast_bytes as nat == (if column(rdv, 0)
                == "Incoming Unicast Total Size"@ {
                dec_value(bytes_stripped(column(rdv, 1)))
            } else {
                old(status).incoming_unicast_bytes as nat
            })
            &&& final(status).incoming_broadcast_packets as nat == (if column(rdv, 0)
                == "Incoming Broadcast Packets"@ {
                dec_value(count_stripped(column(rdv, 1)))
            } else {
                old(status).incoming_broadcast_packets as nat
            })
            &&& final(status).incoming_broadcast_bytes as nat == (if column(rdv, 0)
                == "Incoming Broadcast Total Size"@ {
                dec_value(bytes_stripped(column(rdv, 1)))
            } else {
                old(status).incoming_broadcast_bytes as nat
            })
        },
        r matches Err(e) ==> !detail_row_ok(row.deep_view()) && e is FormatError,
{
    proof {
        reveal_strlit("Outgoing Data Size");
        reveal_strlit("Outgoing Unicast Packets");
        reveal_strlit("Outgoing Unicast Total Size");
        reveal_strlit("Outgoing Broadcast Packets");
        reveal_strlit("Outgoing Broadcast Total Size");
        reveal_strlit("Incoming Data Size");
        reveal_strlit("Incoming Unicast Packets");
        reveal_strlit("Incoming Unicast Total Size");
        reveal_strlit("Incoming Broadcast Packets");
        reveal_strlit("Incoming Broadcast Total Size");
        assert(("Outgoing Data Size"@)[0] == 'O' && ("Outgoing Data Size"@).len() == 18);
        assert(("Outgoing Unicast Packets"@)[0] == 'O' && ("Outgoing Unicast Packets"@).len()
            == 24);
        assert(("Outgoing Unicast Total Size"@)[0] == 'O' && ("Outgoing Unicast Total Size"@).len()
            == 27);
        assert(("Outgoing Broadcast Packets"@)[0] == 'O' && ("Outgoing Broadcast Packets"@).len()
            == 26);
        assert(("Outgoing Broadcast Total Size"@)[0] == 'O' && (
        "Outgoing Broadcast Total Size"@).len() == 29);
        assert(("Incoming Data Size"@)[0] == 'I' && ("Incoming Data Size"@).len() == 18);
        assert(("Incoming Unicast Packets"@)[0] == 'I' && ("Incoming Unicast Packets"@).len()
            == 24);
        assert(("Incoming Unicast Total Size"@)[0] == 'I' && ("Incoming Unicast Total Size"@).len()
            == 27);
        assert(("Incoming Broadcast Packets"@)[0] == 'I' && ("Incoming Broadcast Packets"@).len()
            == 26);
        assert(("Incoming Broadcast Total Size"@)[0] == 'I' && (
        "Incoming Broadcast Total Size"@).len() == 29);
    }
    let label = column_string(row, 0);
    let value = column_string(row, 1);
    if str_eq(label.as_str(), "Outgoing Data Size") {
        match SoftEtherReader::decode_bytes(value.as_str()) {
            Ok(v) => status.outgoing_data_size = v,
            Err(e) => return Err(e),
        }
    } else if str_eq(label.as_str(), "Outgoing Unicast Packets") {
        match SoftEtherReader::decode_packets(value.as_str()) {
            Ok(v) => status.outgoing_unicast_packets = v,
            Err(e) => return Err(e),
        }
    } else if str_eq(label.as_str(), "Outgoing Unicast Total Size") {
        match SoftEtherReader::decode_bytes(value.as_str()) {
            Ok(v) => status.outgoing_unicast_bytes = v,
            Err(e) => return Err(e),
        }
    } else if str_eq(label.as_str(), "Outgoing Broadcast Packets") {
        match SoftEtherReader::decode_packets(value.as_str()) {
            Ok(v) => status.outgoing_broadcast_packets = v,
            Err(e) => return Err(e),
        }
    } else if str_eq(label.as_str(), "Outgoing Broadcast Total Size") {
        match SoftEtherReader::decode_bytes(value.as_str()) {
            Ok(v) => status.outgoing_broadcast_bytes = v,
            Err(e) => return Err(e),
        }
    } else if str_eq(label.as_str(), "Incoming Data Size") {
        match SoftEtherReader::decode_bytes(value.as_str()) {
            Ok(v) => status.incoming_data_size = v,
            Err(e) => return Err(e),
        }
    } else if str_eq(label.as_str(), "Incoming Unicast Packets") {
        match SoftEtherReader::decode_packets(value.as_str()) {
            Ok(v) => status.incoming_unicast_packets = v,
            Err(e) => return Err(e),
        }
    } else if str_eq(label.as_str(), "Incoming Unicast Total Size") {
        match SoftEtherReader::decode_bytes(value.as_str()) {
            Ok(v) => status.incoming_unicast_bytes = v,
            Err(e) => return Err(e),
        }
    } else if str_eq(label.as_str(), "Incoming Broadcast Packets") {
        match SoftEtherReader::decode_packets(value.as_str()) {
            Ok(v) => status.incoming_broadcast_packets = v,
            Err(e) => return Err(e),
        }
    } else if str_eq(label.as_str(), "Incoming Broadcast Total Size") {
        match SoftEtherReader::decode_bytes(value.as_str()) {
            Ok(v) => status.incoming_broadcast_bytes = v,
            Err(e) => return Err(e),
        }
    }
    Ok(())
}

impl SoftEtherHubSessionReader {
    /// Decode one session's detail table, seeded from its summary entry:
    /// the eight summary fields are copied verbatim and never re-derived;
    /// each recognized label assigns its decoded value (later rows
    /// overwrite earlier ones); unrecognized labels are ignored; a decode
    /// failure under a recognized label aborts.
    pub fn decode_hub_session_info(src: &[u8], session: &HubSessionListEntry) -> (r: Result<
        HubSession,
        SoftEtherError,
    >)
        ensures
            csv_rows(src@) is None ==> (r matches Err(e) && e is CsvSyntaxError),
            csv_rows(src@) matches Some(rows) ==> {
                &&& detail_rows_ok(rows) ==> (r matches Ok(d) && {
                    &&& d.name@ == session.name@
                    &&& d.vlan_id@ == session.vlan_id@
                    &&& d.location@ == session.location@
                    &&& d.user@ == session.user@
                    &&& d.source@ == session.source@
                    &&& d.connections == session.connections
                    &&& d.transfer_bytes == session.transfer_bytes
                    &&& d.transfer_packets == session.transfer_packets
                    &&& d.outgoing_data_size as nat == detail_bytes_field(
                        rows,
                        "Outgoing Data Size"@,
                    )
                    &&& d.outgoing_unicast_packets as nat == detail_count_field(
                        rows,
                        "Outgoing Unicast Packets"@,
                    )
                    &&& d.outgoing_unicast_bytes as nat == detail_bytes_field(
                        rows,
                        "Outgoing Unicast Total Size"@,
                    )
                    &&& d.outgoing_broadcast_packets as nat == detail_count_field(
                        rows,
                        "Outgoing Broadcast Packets"@,
                    )
                    &&& d.outgoing_broadcast_bytes as nat == detail_bytes_field(
                        rows,
                        "Outgoing Broadcast Total Size"@,
                    )
                    &&& d.incoming_data_size as nat == detail_bytes_field(
                        rows,
                        "Incoming Data Size"@,
                    )
                    &&& d.incoming_unicast_packets as nat == detail_count_field(
                        rows,
                        "Incoming Unicast Packets"@,
                    )
                    &&& d.incoming_unicast_bytes as nat == detail_bytes_field(
                        rows,
                        "Incoming Unicast Total Size"@,
                    )
                    &&& d.incoming_broadcast_packets as nat == detail_count_field(
                        rows,
                        "Incoming Broadcast Packets"@,
                    )
                    &&& d.incoming_broadcast_bytes as nat == detail_bytes_field(
                        rows,
                        "Incoming Broadcast Total Size"@,
                    )
                })
                &&& !detail_rows_ok(rows) ==> (r matches Err(e) && e is FormatError)
            },
    {
        let rows = match read_csv_rows(src) {
            Ok(rows) => rows,
            Err(m) => {
                let mut t = String::from_str("could not parse tabular output: ");
                t.append(m.as_str());
                return Err(SoftEtherError::CsvSyntaxError(t));
            },
        };
        let ghost model_rows = rows.deep_view();
        let mut status = HubSession::new();
        status.name = session.name.clone();
        status.vlan_id = session.vlan_id.clone();
        status.location = session.location.clone();
        status.user = session.user.clone();
        status.source = session.source.clone();
        status.connections = session.connections;
        status.transfer_bytes = session.transfer_bytes;
        status.transfer_packets = session.transfer_packets;
        let mut i: usize = 0;
        while i < rows.len()
            invariant
                csv_rows(src@) == Some(model_rows),
                model_rows == rows.deep_view(),
                i <= rows@.len(),
                status.name@ == session.name@,
                status.vlan_id@ == session.vlan_id@,
                status.location@ == session.location@,
                status.user@ == session.user@,
                status.source@ == session.source@,
                status.connections == session.connections,
                status.transfer_bytes == session.transfer_bytes,
                status.transfer_packets == session.transfer_packets,
                forall|k: int| 0 <= k < i ==> detail_row_ok(#[trigger] model_rows[k]),
                status.outgoing_data_size as nat == detail_bytes_field(
                    model_rows.take(i as int),
                    "Outgoing Data Size"@,
                ),
                status.outgoing_unicast_packets as nat == detail_count_field(
                    model_rows.take(i as int),
                    "Outgoing Unicast Packets"@,
                ),
                status.outgoing_unicast_bytes as nat == detail_bytes_field(
                    model_rows.take(i as int),
                    "Outgoing Unicast Total Size"@,
                ),
                status.outgoing_broadcast_packets as nat == detail_count_field(
                    model_rows.take(i as int),
                    "Outgoing Broadcast Packets"@,
                ),
                status.outgoing_broadcast_bytes as nat == detail_bytes_field(
                    model_rows.take(i as int),
                    "Outgoing Broadcast Total Size"@,
                ),
                status.incoming_data_size as nat == detail_bytes_field(
                    model_rows.take(i as int),
                    "Incoming Data Size"@,
                ),
                status.incoming_unicast_packets as nat == detail_count_field(
                    model_rows.take(i as int),
                    "Incoming Unicast Packets"@,
                ),
                status.incoming_unicast_bytes as nat == detail_bytes_field(
                    model_rows.take(i as int),
                    "Incoming Unicast Total Size"@,
                ),
                status.incoming_broadcast_packets as nat == detail_count_field(
                    model_rows.take(i as int),
                    "Incoming Broadcast Packets"@,
                ),
                status.incoming_broadcast_bytes as nat == detail_bytes_field(
                    model_rows.take(i as int),
                    "Incoming Broadcast Total Size"@,
                ),
            decreases rows@.len() - i,
        {
            proof {
                assert(model_rows[i as int] == rows@[i as int].deep_view());
            }
            match apply_detail_row(&mut status, &rows[i]) {
                Ok(_) => {},
                Err(e) => {
                    proof {
                        assert(!detail_row_ok(model_rows[i as int]));
                    }
                    return Err(e);
                },
            }
            proof {
                lemma_last_value_step(model_rows, i as int, "Outgoing Data Size"@);
                lemma_last_value_step(model_rows, i as int, "Outgoing Unicast Packets"@);
                lemma_last_value_step(model_rows, i as int, "Outgoing Unicast Total Size"@);
                lemma_last_value_step(model_rows, i as int, "Outgoing Broadcast Packets"@);
                lemma_last_value_step(model_rows, i as int, "Outgoing Broadcast Total Size"@);
                lemma_last_value_step(model_rows, i as int, "Incoming Data Size"@);
                lemma_last_value_step(model_rows, i as int, "Incoming Unicast Packets"@);
                lemma_last_value_step(model_rows, i as int, "Incoming Unicast Total Size"@);
                lemma_last_value_step(model_rows, i as int, "Incoming Broadcast Packets"@);
                lemma_last_value_step(model_rows, i as int, "Incoming Broadcast Total Size"@);
            }
            i = i + 1;
        }
        proof {
            assert(model_rows.take(model_rows.len() as int) =~= model_rows);
        }
        Ok(status)
    }
}

/// Law: a detail-table row with an unrecognized label is ignored,
/// whatever its value text. Inserting such a row anywhere in a detail
/// table changes neither whether the table decodes nor any value a
/// recognized label assigns.
pub proof fn lemma_unrecognized_label_ignored(
    before: Seq<Seq<Seq<char>>>,
    extra: Seq<Seq<char>>,
    after: Seq<Seq<Seq<char>>>,
)
    requires
        !recognized_label(column(extra, 0)),
    ensures
        detail_rows_ok(before + seq![extra] + after) == detail_rows_ok(before + after),
        forall|lab: Seq<char>|
            recognized_label(lab) ==> #[trigger] last_value(before + seq![extra] + after, lab)
                == last_value(before + after, lab),
    decreases after.len(),
{
    let with_extra = before + seq![extra] + after;
    let without_extra = before + after;
    assert(detail_row_ok(extra));
    if detail_rows_ok(without_extra) {
        assert forall|i: int| 0 <= i < with_extra.len() implies detail_row_ok(
            #[trigger] with_extra[i],
        ) by {
            if i < before.len() {
                assert(with_extra[i] == without_extra[i]);
            } else if i == before.len() {
                assert(with_extra[i] == extra);
            } else {
                assert(with_extra[i] == without_extra[i - 1]);
            }
        }
    }
    if detail_rows_ok(with_extra) {
        assert forall|i: int| 0 <= i < without_extra.len() implies detail_row_ok(
            #[trigger] without_extra[i],
        ) by {
            if i < before.len() {
                assert(without_extra[i] == with_extra[i]);
            } else {
                assert(without_extra[i] == with_extra[i + 1]);
            }
        }
    }
    if after.len() == 0 {
        assert(with_extra.drop_last() =~= without_extra);
        assert(with_extra.last() == extra);
        assert forall|lab: Seq<char>| recognized_label(lab) implies #[trigger] last_value(
            with_extra,
            lab,
        ) == last_value(without_extra, lab) by {
            assert(column(extra, 0) != lab);
        }
    } else {
        lemma_unrecognized_label_ignored(before, extra, after.drop_last());
        assert(with_extra.drop_last() =~= before + seq![extra] + after.drop_last());
        assert(without_extra.drop_last() =~= before + after.drop_last());
        assert(with_extra.last() == after.last());
        assert(without_extra.last() == after.last());
        assert forall|lab: Seq<char>| recognized_label(lab) implies #[trigger] last_value(
            with_extra,
            lab,
        ) == last_value(without_extra, lab) by {
            if column(after.last(), 0) != lab {
                assert(last_value(before + seq![extra] + after.drop_last(), lab) == last_value(
                    before + after.drop_last(),
                    lab,
                ));
            }
        }
    }
}

} // verus!
