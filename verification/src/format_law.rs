//! Laws of what is written: the bytes of frames and the text of the library.

use vstd::prelude::*;

use crate::codec::CodecError;
use crate::codec::Quote;
use crate::codec::ValueView;
use crate::model::HostDatabaseView;
use crate::model::JumpHopView;
use crate::model::StoredHostKeyPolicy;
use crate::protocol::ClientView;
use crate::protocol::RequestView;
use crate::protocol::ServerView;

verus! {

/// Numbers are written with their highest byte first.
pub proof fn numbers_are_written_high_byte_first(a: u16, b: u32, c: u64)
    ensures
        crate::protocol::u16_bytes(a).len() == 2,
        crate::protocol::u16_bytes(a)[0] * 256 + crate::protocol::u16_bytes(a)[1] == a,
        crate::protocol::u32_bytes(b).len() == 4,
        ({
            let x = crate::protocol::u32_bytes(b);
            x[0] * 16777216 + x[1] * 65536 + x[2] * 256 + x[3] == b
        }),
        crate::protocol::u64_bytes(c).len() == 8,
        crate::protocol::u64_bytes(c).take(4) == crate::protocol::u32_bytes(
            (c / 4294967296) as u32,
        ),
        crate::protocol::u64_bytes(c).skip(4) == crate::protocol::u32_bytes(
            (c % 4294967296) as u32,
        ),
{
    reveal(crate::protocol::u16_bytes);
    reveal(crate::protocol::u32_bytes);
    reveal(crate::protocol::u64_bytes);
    let x = crate::protocol::u64_bytes(c);
    assert(x.take(4) =~= crate::protocol::u32_bytes((c / 4294967296) as u32));
    assert(x.skip(4) =~= crate::protocol::u32_bytes((c % 4294967296) as u32));
}

/// A field is its length in four bytes and then its bytes, where they are not
/// more than they may be.
pub proof fn fields_tell_their_length(bytes: Seq<u8>, max: int)
    requires
        0 <= max < 0x1_0000_0000,
    ensures
        match crate::protocol::field(bytes, max) {
            Ok(written) => {
                &&& bytes.len() <= max && written.len() == bytes.len() + 4
                &&& written[0] * 16777216 + written[1] * 65536 + written[2] * 256 + written[3]
                    == bytes.len()
                &&& written.skip(4) == bytes
            },
            Err(_) => bytes.len() > max,
        },
{
    reveal(crate::protocol::field);
    if bytes.len() <= max {
        let n = bytes.len() as u32;
        numbers_are_written_high_byte_first(0, n, 0);
        let written = crate::protocol::u32_bytes(n) + bytes;
        assert(written.skip(4) =~= bytes);
        assert(written[0] == crate::protocol::u32_bytes(n)[0]);
        assert(written[1] == crate::protocol::u32_bytes(n)[1]);
        assert(written[2] == crate::protocol::u32_bytes(n)[2]);
        assert(written[3] == crate::protocol::u32_bytes(n)[3]);
    }
}

/// The first byte of a frame tells which it is.
pub proof fn frames_begin_with_their_tag(client: ClientView, server: ServerView)
    ensures
        crate::protocol::client_bytes(client) matches Ok(bytes) ==> bytes.len() > 0 && bytes[0] == (
        match client {
            ClientView::Ping => 1u8,
            ClientView::Status => 2,
            ClientView::Disconnect { .. } => 3,
            ClientView::Exec { .. } => 4,
            ClientView::Shell { .. } => 5,
            ClientView::Input(_) => 6,
            ClientView::Resize { .. } => 7,
            ClientView::Eof => 8,
            ClientView::Shutdown => 9,
            ClientView::JumpAuthResponse { .. } => 10,
        }),
        crate::protocol::server_bytes(server) matches Ok(bytes) ==> bytes.len() > 0 && bytes[0] == (
        match server {
            ServerView::Done => 64u8,
            ServerView::Error(_) => 65,
            ServerView::AuthRequired => 66,
            ServerView::Stdout(_) => 67,
            ServerView::Stderr(_) => 68,
            ServerView::Exit(_) => 69,
            ServerView::Status { .. } => 70,
            ServerView::Cache { .. } => 71,
            ServerView::JumpAuthChallenge { .. } => 72,
        }),
{
}

/// The first byte of credentials tells which way they are for; nothing stands for
/// none.
pub proof fn credentials_begin_with_their_kind(auth: Option<RequestView>)
    ensures
        crate::protocol::auth_field(auth) matches Ok(bytes) ==> bytes.len() > 0 && bytes[0] == (
        match auth {
            None => 0u8,
            Some(RequestView::Auto) => 1,
            Some(RequestView::Agent) => 2,
            Some(RequestView::Password(_)) => 3,
            Some(RequestView::KeyboardInteractive(_)) => 4,
            Some(RequestView::PrivateKey { .. }) => 5,
        }),
{
    reveal(crate::protocol::auth_field);
}

/// A status is told as it is, and a missing one as a zero byte.
pub proof fn exits_tell_their_status(code: u32)
    ensures
        crate::protocol::server_bytes(ServerView::Exit(None)) matches Ok(bytes) && bytes == seq![
            69u8,
            0,
        ],
        crate::protocol::server_bytes(ServerView::Exit(Some(code))) matches Ok(bytes) && bytes
            == seq![69u8, 1] + crate::protocol::u32_bytes(code),
{
    assert(seq![69u8] + seq![0u8] =~= seq![69u8, 0]);
    assert(seq![69u8] + (seq![1u8] + crate::protocol::u32_bytes(code)) =~= seq![69u8, 1]
        + crate::protocol::u32_bytes(code));
}

/// The text that is stored under a name, if any is.
pub open spec fn text_at(values: Seq<(Seq<char>, ValueView)>, key: Seq<char>) -> Option<Seq<char>> {
    match crate::text_map::lookup(values, key) {
        Some(ValueView::Text(text)) => Some(text),
        _ => None,
    }
}

pub open spec fn number_at(values: Seq<(Seq<char>, ValueView)>, key: Seq<char>) -> Option<u64> {
    match crate::text_map::lookup(values, key) {
        Some(ValueView::Integer(n)) => Some(n),
        _ => None,
    }
}

pub open spec fn texts_at(values: Seq<(Seq<char>, ValueView)>, key: Seq<char>) -> Seq<Seq<char>> {
    match crate::text_map::lookup(values, key) {
        Some(ValueView::Texts(texts)) => texts,
        _ => Seq::empty(),
    }
}

/// The policy that a table names; without one new keys are accepted.
pub open spec fn policy_at(values: Seq<(Seq<char>, ValueView)>, policy: StoredHostKeyPolicy) -> bool {
    match text_at(values, "host_key_policy"@) {
        Some(name) => name == policy.name(),
        None => policy == StoredHostKeyPolicy::AcceptNew,
    }
}

proof fn lemma_policy(values: Seq<(Seq<char>, ValueView)>)
    ensures
        crate::codec::policy_field(values) matches Ok(policy) ==> policy_at(values, policy),
{
}

/// A host that is read is what its table says: address, user and alias have to be
/// there; without a port it has 22, without a policy new keys are accepted, and
/// without a count it was never used. Nothing else may be in the table.
pub proof fn read_hosts_are_as_written(values: Seq<(Seq<char>, ValueView)>, line: usize)
    ensures
        crate::codec::host_of(values, line) matches Ok(record) ==> {
            &&& text_at(values, "alias"@) == Some(record.alias)
            &&& text_at(values, "address"@) == Some(record.address)
            &&& text_at(values, "user"@) == Some(record.user)
            &&& match number_at(values, "port"@) {
                Some(port) => record.port == port,
                None => record.port == 22,
            }
            &&& record.identity_file == text_at(values, "identity_file"@)
            &&& record.note == text_at(values, "note"@)
            &&& record.jump_chain == text_at(values, "jump_chain"@)
            &&& record.groups == texts_at(values, "groups"@)
            &&& record.tags == texts_at(values, "tags"@)
            &&& policy_at(values, record.host_key_policy)
            &&& record.stats.last_connected_unix == number_at(values, "last_connected_unix"@)
            &&& match number_at(values, "connection_count"@) {
                Some(count) => record.stats.connection_count == count,
                None => record.stats.connection_count == 0,
            }
            &&& match text_at(values, "last_auth_method"@) {
                Some(name) => record.stats.last_auth_method matches Some(method) && name
                    == method.name(),
                None => record.stats.last_auth_method is None,
            }
            &&& record.fault() is None
            &&& forall|i: int| 0 <= i < values.len() ==> #[trigger] is_host_key(values[i].0)
        },
{
    lemma_policy(values);
    if crate::codec::host_of(values, line) is Ok {
        assert forall|i: int| 0 <= i < values.len() implies #[trigger] is_host_key(values[i].0) by {
            let keys = crate::codec::host_keys();
            assert(keys.contains(values[i].0));
            let k = choose|k: int| 0 <= k < keys.len() && keys[k] == values[i].0;
        }
    }
}

pub open spec fn is_host_key(key: Seq<char>) -> bool {
    ||| key == "alias"@ || key == "address"@ || key == "port"@ || key == "user"@
    ||| key == "identity_file"@ || key == "groups"@ || key == "tags"@ || key == "note"@
    ||| key == "host_key_policy"@ || key == "jump_chain"@ || key == "last_connected_unix"@
    ||| key == "connection_count"@ || key == "last_auth_method"@
}

/// A hop that is written out is what its table says, and one by name names a host
/// of the library or an alias, as its kind says.
pub proof fn read_hops_are_as_written(values: Seq<(Seq<char>, ValueView)>, line: usize)
    ensures
        crate::codec::hop_of(values, line) matches Ok((chain, index, hop)) ==> {
            &&& text_at(values, "chain"@) == Some(chain)
            &&& number_at(values, "index"@) matches Some(n) && n == index
            &&& match hop {
                JumpHopView::Host(alias) => text_at(values, "kind"@) == Some("host"@) && text_at(
                    values,
                    "name"@,
                ) == Some(alias),
                JumpHopView::OpenSshAlias(alias) => text_at(values, "kind"@) == Some("openssh"@)
                    && text_at(values, "name"@) == Some(alias),
                JumpHopView::Inline(jump) => {
                    &&& text_at(values, "kind"@) == Some("inline"@)
                    &&& text_at(values, "alias"@) == Some(jump.alias)
                    &&& text_at(values, "host"@) == Some(jump.host)
                    &&& text_at(values, "user"@) == Some(jump.user)
                    &&& match number_at(values, "port"@) {
                        Some(port) => jump.port == port,
                        None => jump.port == 22,
                    }
                    &&& jump.identity_file == text_at(values, "identity_file"@)
                    &&& policy_at(values, jump.host_key_policy)
                },
            }
            &&& hop.fault() is None
        },
{
    lemma_policy(values);
}

proof fn lemma_index_place(list: Seq<(usize, JumpHopView)>, index: int)
    ensures
        ({
            let p = crate::codec::index_place(list, index);
            &&& 0 <= p <= list.len()
            &&& p < list.len() ==> list[p].0 == index
        }),
    decreases list.len(),
{
    if list.len() > 0 && list[0].0 != index {
        lemma_index_place(list.drop_first(), index);
    }
}

/// The hops of a chain stand in the order of their numbers, whatever order they
/// are read in; where a number is missing the chain is refused.
pub proof fn hops_stand_by_their_number(list: Seq<(usize, JumpHopView)>, i: int)
    requires
        0 <= i < list.len(),
    ensures
        crate::codec::contiguous(list) ==> {
            let hops = crate::codec::in_order(list);
            &&& hops.len() == list.len()
            &&& exists|k: int| 0 <= k < list.len() && #[trigger] list[k] == (i as usize, hops[i])
        },
        (forall|k: int| 0 <= k < list.len() ==> (#[trigger] list[k]).0 != i)
            ==> !crate::codec::contiguous(list),
{
    lemma_index_place(list, i);
    let p = crate::codec::index_place(list, i);
    if crate::codec::contiguous(list) {
        assert(p < list.len());
        assert(list[p].0 == i as usize);
        assert(list[p] == (i as usize, crate::codec::in_order(list)[i]));
    }
}

/// A library that is read is sound and has version 1; a text of more than four
/// mebibytes is not read.
pub proof fn read_libraries_are_sound(input: Seq<char>)
    ensures
        crate::codec::decoded(input) matches Ok(d) ==> d.fault() is None && d.version == 1,
        vstd::utf8::encode_utf8(input).len() > 4194304 ==> crate::codec::decoded(input) == Err::<
            HostDatabaseView,
            CodecError,
        >(CodecError::TooLarge),
{
}

/// Text without a quote, a backslash or a control character is written between
/// quotes as it is, and a number in decimal digits, behind the name of its field.
pub proof fn plain_values_are_written_as_they_are(key: Seq<char>, text: Seq<char>, n: u64)
    requires
        forall|i: int|
            0 <= i < text.len() ==> #[trigger] text[i] != '"' && text[i] != '\\' && text[i] != '\n'
                && text[i] != '\r' && text[i] != '\t',
    ensures
        crate::codec::field_line(key, ValueView::Text(text)) == key + seq![' ', '=', ' ', '"'] + text
            + seq!['"'],
        crate::codec::field_line(key, ValueView::Integer(n)) == key + seq![' ', '=', ' ']
            + crate::text::decimal(n as nat),
{
    lemma_plain_escape(text);
    assert(key + seq![' ', '=', ' '] + (seq!['"'] + text + seq!['"']) =~= key + seq![
        ' ',
        '=',
        ' ',
        '"',
    ] + text + seq!['"']);
}

proof fn lemma_plain_escape(text: Seq<char>)
    requires
        forall|i: int|
            0 <= i < text.len() ==> #[trigger] text[i] != '"' && text[i] != '\\' && text[i] != '\n'
                && text[i] != '\r' && text[i] != '\t',
    ensures
        crate::codec::escape(text) == text,
    decreases text.len(),
{
    if text.len() > 0 {
        let before = text.drop_last();
        assert forall|i: int| 0 <= i < before.len() implies #[trigger] before[i] != '"' && before[i]
            != '\\' && before[i] != '\n' && before[i] != '\r' && before[i] != '\t' by {
            assert(before[i] == text[i]);
        }
        lemma_plain_escape(before);
        assert(text[text.len() - 1] == text.last());
        assert(before + seq![text.last()] =~= text);
    } else {
        assert(crate::codec::escape(text) =~= text);
    }
}

/// What stands behind a hash sign that is not in quotes does not count.
pub proof fn comments_do_not_count(line: Seq<char>, comment: Seq<char>)
    requires
        !line.contains('#'),
        !line.contains('"'),
    ensures
        crate::codec::strip_comment(line + seq!['#'] + comment) == Some(line),
        crate::codec::strip_comment(line) == Some(line),
{
    lemma_unquoted(line, seq!['#'] + comment);
    assert(line + (seq!['#'] + comment) =~= line + seq!['#'] + comment);
    assert((line + seq!['#'] + comment).take(line.len() as int) =~= line);
    lemma_unquoted(line, Seq::empty());
    assert(line + Seq::empty() =~= line);
}

proof fn lemma_unquoted(line: Seq<char>, rest: Seq<char>)
    requires
        !line.contains('#'),
        !line.contains('"'),
        rest.len() > 0 ==> rest[0] == '#',
    ensures
        crate::codec::unquoted_position(line + rest, '#', Quote::Plain) == line.len(),
        rest.len() == 0 ==> crate::codec::quote_after(line + rest, Quote::Plain) is Plain,
    decreases line.len(),
{
    let all = line + rest;
    if line.len() > 0 {
        let tail = line.drop_first();
        assert(all[0] == line[0] && line.contains(line[0]));
        assert(all.drop_first() =~= tail + rest);
        assert(!tail.contains('#') && !tail.contains('"')) by {
            if tail.contains('#') {
                let i = choose|i: int| 0 <= i < tail.len() && tail[i] == '#';
                assert(line[i + 1] == '#');
            }
            if tail.contains('"') {
                let i = choose|i: int| 0 <= i < tail.len() && tail[i] == '"';
                assert(line[i + 1] == '"');
            }
        }
        lemma_unquoted(tail, rest);
    } else {
        assert(all =~= rest);
    }
}

} // verus!
