//! Frames come through as they were sent.

use vstd::prelude::*;

use crate::protocol::ClientView;
use crate::protocol::FrameProblem;
use crate::protocol::RequestView;
use crate::protocol::ServerView;

verus! {

proof fn lemma_u16(n: u16, s: Seq<u8>)
    ensures
        crate::protocol::read_u16(crate::protocol::u16_bytes(n) + s) == Ok::<
            (u16, Seq<u8>),
            FrameProblem,
        >((n, s)),
        crate::protocol::u16_bytes(n).len() == 2,
{
    reveal(crate::protocol::read_u16);
    reveal(crate::protocol::u16_bytes);
    let b = crate::protocol::u16_bytes(n) + s;
    assert(b[0] == n / 256);
    assert(b[1] == n % 256);
    assert(b.skip(2) =~= s);
}

proof fn lemma_u16_back(b: Seq<u8>, n: u16, s: Seq<u8>)
    requires
        crate::protocol::read_u16(b) == Ok::<(u16, Seq<u8>), FrameProblem>((n, s)),
    ensures
        b == crate::protocol::u16_bytes(n) + s,
{
    reveal(crate::protocol::read_u16);
    reveal(crate::protocol::u16_bytes);
    assert(n == b[0] * 256 + b[1]);
    assert(n / 256 == b[0] && n % 256 == b[1]);
    assert(b =~= crate::protocol::u16_bytes(n) + s);
}

proof fn lemma_u32(n: u32, s: Seq<u8>)
    ensures
        crate::protocol::read_u32(crate::protocol::u32_bytes(n) + s) == Ok::<
            (u32, Seq<u8>),
            FrameProblem,
        >((n, s)),
        crate::protocol::u32_bytes(n).len() == 4,
{
    reveal(crate::protocol::read_u32);
    reveal(crate::protocol::u32_bytes);
    let b = crate::protocol::u32_bytes(n) + s;
    assert(b[0] == n / 16777216);
    assert(b[1] == (n / 65536) % 256);
    assert(b[2] == (n / 256) % 256);
    assert(b[3] == n % 256);
    assert(b.skip(4) =~= s);
}

proof fn lemma_u32_back(b: Seq<u8>, n: u32, s: Seq<u8>)
    requires
        crate::protocol::read_u32(b) == Ok::<(u32, Seq<u8>), FrameProblem>((n, s)),
    ensures
        b == crate::protocol::u32_bytes(n) + s,
{
    reveal(crate::protocol::read_u32);
    reveal(crate::protocol::u32_bytes);
    assert(n == crate::protocol::four(b));
    assert(n / 16777216 == b[0]);
    assert((n / 65536) % 256 == b[1]);
    assert((n / 256) % 256 == b[2]);
    assert(n % 256 == b[3]);
    assert(b =~= crate::protocol::u32_bytes(n) + s);
}

proof fn lemma_counter(n: usize, s: Seq<u8>)
    ensures
        crate::protocol::read_counter(crate::protocol::u64_bytes(n as u64) + s) == Ok::<
            (usize, Seq<u8>),
            FrameProblem,
        >((n, s)),
        crate::protocol::u64_bytes(n as u64).len() == 8,
{
    reveal(crate::protocol::read_counter);
    reveal(crate::protocol::u64_bytes);
    let high = (n as u64 / 4294967296) as u32;
    let low = (n as u64 % 4294967296) as u32;
    let b = crate::protocol::u64_bytes(n as u64) + s;
    let tail = crate::protocol::u32_bytes(low) + s;
    lemma_u32(high, tail);
    lemma_u32(low, s);
    assert(b =~= crate::protocol::u32_bytes(high) + tail);
    reveal(crate::protocol::read_u32);
    assert(b.skip(4) =~= tail);
    assert(b.skip(8) =~= s);
}

proof fn lemma_counter_back(b: Seq<u8>, n: usize, s: Seq<u8>)
    requires
        crate::protocol::read_counter(b) == Ok::<(usize, Seq<u8>), FrameProblem>((n, s)),
    ensures
        b == crate::protocol::u64_bytes(n as u64) + s,
{
    reveal(crate::protocol::read_counter);
    reveal(crate::protocol::u64_bytes);
    reveal(crate::protocol::read_u32);
    let high = crate::protocol::four(b) as u32;
    let low = crate::protocol::four(b.skip(4)) as u32;
    lemma_u32_back(b, high, b.skip(4));
    assert(b.skip(4).skip(4) =~= s);
    lemma_u32_back(b.skip(4), low, s);
    assert(n == high * 4294967296 + low);
    assert(n as u64 / 4294967296 == high);
    assert(n as u64 % 4294967296 == low);
    assert(b =~= crate::protocol::u64_bytes(n as u64) + s);
}

proof fn lemma_field(bytes: Seq<u8>, max: int, e: Seq<u8>, s: Seq<u8>)
    requires
        max <= u32::MAX,
        crate::protocol::field(bytes, max) == Ok::<Seq<u8>, FrameProblem>(e),
    ensures
        crate::protocol::read_field(e + s, max) == Ok::<(Seq<u8>, Seq<u8>), FrameProblem>(
            (bytes, s),
        ),
        e.len() == bytes.len() + 4,
{
    reveal(crate::protocol::field);
    reveal(crate::protocol::read_field);
    let n = bytes.len() as u32;
    lemma_u32(n, bytes + s);
    assert(e + s =~= crate::protocol::u32_bytes(n) + (bytes + s));
    assert((bytes + s).take(n as int) =~= bytes);
    assert((bytes + s).skip(n as int) =~= s);
}

proof fn lemma_field_back(b: Seq<u8>, max: int, bytes: Seq<u8>, s: Seq<u8>) -> (e: Seq<u8>)
    requires
        crate::protocol::read_field(b, max) == Ok::<(Seq<u8>, Seq<u8>), FrameProblem>((bytes, s)),
    ensures
        crate::protocol::field(bytes, max) == Ok::<Seq<u8>, FrameProblem>(e),
        b == e + s,
{
    reveal(crate::protocol::field);
    reveal(crate::protocol::read_field);
    let (n, rest) = crate::protocol::read_u32(b)->Ok_0;
    lemma_u32_back(b, n, rest);
    let e = crate::protocol::u32_bytes(n) + bytes;
    assert(b =~= e + s);
    e
}

proof fn lemma_text(text: Seq<char>, max: int, e: Seq<u8>, s: Seq<u8>)
    requires
        max <= u32::MAX,
        crate::protocol::text_field(text, max) == Ok::<Seq<u8>, FrameProblem>(e),
    ensures
        crate::protocol::read_text(e + s, max) == Ok::<(Seq<char>, Seq<u8>), FrameProblem>(
            (text, s),
        ),
        e.len() <= max + 4,
{
    reveal(crate::protocol::text_field);
    reveal(crate::protocol::read_text);
    let bytes = vstd::utf8::encode_utf8(text);
    lemma_field(bytes, max, e, s);
    vstd::utf8::encode_utf8_valid_utf8(text);
    vstd::utf8::encode_utf8_decode_utf8(text);
    reveal(crate::protocol::field);
}

proof fn lemma_text_back(b: Seq<u8>, max: int, text: Seq<char>, s: Seq<u8>) -> (e: Seq<u8>)
    requires
        crate::protocol::read_text(b, max) == Ok::<(Seq<char>, Seq<u8>), FrameProblem>((text, s)),
    ensures
        crate::protocol::text_field(text, max) == Ok::<Seq<u8>, FrameProblem>(e),
        b == e + s,
{
    reveal(crate::protocol::text_field);
    reveal(crate::protocol::read_text);
    let (bytes, rest) = crate::protocol::read_field(b, max)->Ok_0;
    vstd::utf8::decode_utf8_encode_utf8(bytes);
    lemma_field_back(b, max, bytes, s)
}

proof fn lemma_optional(text: Option<Seq<char>>, max: int, e: Seq<u8>, s: Seq<u8>)
    requires
        max <= u32::MAX,
        0 <= max,
        crate::protocol::optional_field(text, max) == Ok::<Seq<u8>, FrameProblem>(e),
    ensures
        crate::protocol::read_optional(e + s, max) == Ok::<
            (Option<Seq<char>>, Seq<u8>),
            FrameProblem,
        >((text, s)),
        e.len() <= max + 5,
{
    reveal(crate::protocol::optional_field);
    reveal(crate::protocol::read_optional);
    match text {
        None => {
            assert((e + s).skip(1) =~= s);
        },
        Some(t) => {
            let piece = crate::protocol::text_field(t, max)->Ok_0;
            lemma_text(t, max, piece, s);
            assert((e + s).skip(1) =~= piece + s);
        },
    }
}

proof fn lemma_optional_back(b: Seq<u8>, max: int, text: Option<Seq<char>>, s: Seq<u8>) -> (e: Seq<
    u8,
>)
    requires
        crate::protocol::read_optional(b, max) == Ok::<
            (Option<Seq<char>>, Seq<u8>),
            FrameProblem,
        >((text, s)),
    ensures
        crate::protocol::optional_field(text, max) == Ok::<Seq<u8>, FrameProblem>(e),
        b == e + s,
{
    reveal(crate::protocol::optional_field);
    reveal(crate::protocol::read_optional);
    match text {
        None => {
            assert(b =~= seq![0u8] + s);
            seq![0u8]
        },
        Some(t) => {
            let piece = lemma_text_back(b.skip(1), max, t, s);
            assert(b =~= seq![1u8] + b.skip(1));
            assert(b =~= (seq![1u8] + piece) + s);
            seq![1u8] + piece
        },
    }
}

proof fn lemma_auth(auth: Option<RequestView>, e: Seq<u8>, s: Seq<u8>)
    requires
        crate::protocol::auth_field(auth) == Ok::<Seq<u8>, FrameProblem>(e),
    ensures
        crate::protocol::read_auth(e + s) == Ok::<(Option<RequestView>, Seq<u8>), FrameProblem>(
            (auth, s),
        ),
        e.len() <= 70000,
{
    reveal(crate::protocol::auth_field);
    reveal(crate::protocol::read_auth);
    let secret_max = crate::protocol::MAX_SECRET_BYTES as int;
    let path_max = crate::protocol::MAX_PATH_BYTES as int;
    match auth {
        Some(RequestView::Password(t)) => {
            let piece = crate::protocol::text_field(t, secret_max)->Ok_0;
            lemma_text(t, secret_max, piece, s);
            assert((e + s).skip(1) =~= piece + s);
        },
        Some(RequestView::KeyboardInteractive(t)) => {
            let piece = crate::protocol::text_field(t, secret_max)->Ok_0;
            lemma_text(t, secret_max, piece, s);
            assert((e + s).skip(1) =~= piece + s);
        },
        Some(RequestView::PrivateKey { path, passphrase }) => {
            let a = crate::protocol::text_field(path, path_max)->Ok_0;
            let b = crate::protocol::optional_field(passphrase, secret_max)->Ok_0;
            lemma_text(path, path_max, a, b + s);
            lemma_optional(passphrase, secret_max, b, s);
            assert((e + s).skip(1) =~= a + (b + s));
        },
        _ => {
            assert((e + s).skip(1) =~= s);
        },
    }
}

proof fn lemma_auth_back(b: Seq<u8>, auth: Option<RequestView>, s: Seq<u8>) -> (e: Seq<u8>)
    requires
        crate::protocol::read_auth(b) == Ok::<(Option<RequestView>, Seq<u8>), FrameProblem>(
            (auth, s),
        ),
    ensures
        crate::protocol::auth_field(auth) == Ok::<Seq<u8>, FrameProblem>(e),
        b == e + s,
{
    reveal(crate::protocol::auth_field);
    reveal(crate::protocol::read_auth);
    let secret_max = crate::protocol::MAX_SECRET_BYTES as int;
    let path_max = crate::protocol::MAX_PATH_BYTES as int;
    let tag = seq![b[0]];
    assert(b =~= tag + b.skip(1));
    match auth {
        Some(RequestView::Password(t)) => {
            let piece = lemma_text_back(b.skip(1), secret_max, t, s);
            assert(b =~= (tag + piece) + s);
            tag + piece
        },
        Some(RequestView::KeyboardInteractive(t)) => {
            let piece = lemma_text_back(b.skip(1), secret_max, t, s);
            assert(b =~= (tag + piece) + s);
            tag + piece
        },
        Some(RequestView::PrivateKey { path, passphrase }) => {
            let (t, left) = crate::protocol::read_text(b.skip(1), path_max)->Ok_0;
            let x = lemma_text_back(b.skip(1), path_max, path, left);
            let y = lemma_optional_back(left, secret_max, passphrase, s);
            assert(b =~= (tag + (x + y)) + s);
            tag + (x + y)
        },
        _ => {
            assert(b =~= tag + s);
            tag
        },
    }
}

proof fn lemma_exec(
    alias: Seq<char>,
    auth: Option<RequestView>,
    command: Seq<char>,
    as_user: Option<Seq<char>>,
    b: Seq<u8>,
)
    requires
        crate::protocol::client_bytes(ClientView::Exec { alias, auth, command, as_user }) == Ok::<
            Seq<u8>,
            FrameProblem,
        >(b),
    ensures
        crate::protocol::client_frame(b) == Ok::<ClientView, FrameProblem>(
            ClientView::Exec { alias, auth, command, as_user },
        ),
        b.len() <= 400000,
{
    let alias_max = crate::protocol::MAX_ALIAS_BYTES as int;
    let command_max = crate::protocol::MAX_COMMAND_BYTES as int;
    let a = crate::protocol::text_field(alias, alias_max)->Ok_0;
    let t = crate::protocol::auth_field(auth)->Ok_0;
    let c = crate::protocol::text_field(command, command_max)->Ok_0;
    let d = crate::protocol::optional_field(as_user, alias_max)->Ok_0;
    let none = Seq::<u8>::empty();
    lemma_text(alias, alias_max, a, t + (c + d));
    lemma_auth(auth, t, c + d);
    lemma_text(command, command_max, c, d);
    lemma_optional(as_user, alias_max, d, none);
    assert(d + none =~= d);
    assert(b.skip(1) =~= a + (t + (c + d)));
}

proof fn lemma_exec_back(b: Seq<u8>, frame: ClientView)
    requires
        b.len() > 0,
        b[0] == 4,
        crate::protocol::client_frame(b) == Ok::<ClientView, FrameProblem>(frame),
    ensures
        crate::protocol::client_bytes(frame) == Ok::<Seq<u8>, FrameProblem>(b),
{
    let alias_max = crate::protocol::MAX_ALIAS_BYTES as int;
    let command_max = crate::protocol::MAX_COMMAND_BYTES as int;
    let b0 = b.skip(1);
    let (alias, b1) = crate::protocol::read_text(b0, alias_max)->Ok_0;
    let (auth, b2) = crate::protocol::read_auth(b1)->Ok_0;
    let (command, b3) = crate::protocol::read_text(b2, command_max)->Ok_0;
    let (as_user, b4) = crate::protocol::read_optional(b3, alias_max)->Ok_0;
    let a = lemma_text_back(b0, alias_max, alias, b1);
    let t = lemma_auth_back(b1, auth, b2);
    let c = lemma_text_back(b2, command_max, command, b3);
    let d = lemma_optional_back(b3, alias_max, as_user, b4);
    assert(b4.len() == 0);
    assert(b =~= seq![4u8] + (a + (t + (c + d))));
}

proof fn lemma_shell(
    alias: Seq<char>,
    auth: Option<RequestView>,
    term: Seq<char>,
    columns: u32,
    rows: u32,
    as_user: Option<Seq<char>>,
    b: Seq<u8>,
)
    requires
        crate::protocol::client_bytes(
            ClientView::Shell { alias, auth, term, columns, rows, as_user },
        ) == Ok::<Seq<u8>, FrameProblem>(b),
    ensures
        crate::protocol::client_frame(b) == Ok::<ClientView, FrameProblem>(
            ClientView::Shell { alias, auth, term, columns, rows, as_user },
        ),
        b.len() <= 400000,
{
    let alias_max = crate::protocol::MAX_ALIAS_BYTES as int;
    let term_max = crate::protocol::MAX_TERM_BYTES as int;
    let a = crate::protocol::text_field(alias, alias_max)->Ok_0;
    let t = crate::protocol::auth_field(auth)->Ok_0;
    let c = crate::protocol::text_field(term, term_max)->Ok_0;
    let x = crate::protocol::u32_bytes(columns);
    let y = crate::protocol::u32_bytes(rows);
    let d = crate::protocol::optional_field(as_user, alias_max)->Ok_0;
    let none = Seq::<u8>::empty();
    lemma_text(alias, alias_max, a, t + (c + (x + (y + d))));
    lemma_auth(auth, t, c + (x + (y + d)));
    lemma_text(term, term_max, c, x + (y + d));
    lemma_u32(columns, y + d);
    lemma_u32(rows, d);
    lemma_optional(as_user, alias_max, d, none);
    assert(d + none =~= d);
    assert(b.skip(1) =~= a + (t + (c + (x + (y + d)))));
}

proof fn lemma_shell_back(b: Seq<u8>, frame: ClientView)
    requires
        b.len() > 0,
        b[0] == 5,
        crate::protocol::client_frame(b) == Ok::<ClientView, FrameProblem>(frame),
    ensures
        crate::protocol::client_bytes(frame) == Ok::<Seq<u8>, FrameProblem>(b),
{
    let alias_max = crate::protocol::MAX_ALIAS_BYTES as int;
    let term_max = crate::protocol::MAX_TERM_BYTES as int;
    let b0 = b.skip(1);
    let (alias, b1) = crate::protocol::read_text(b0, alias_max)->Ok_0;
    let (auth, b2) = crate::protocol::read_auth(b1)->Ok_0;
    let (term, b3) = crate::protocol::read_text(b2, term_max)->Ok_0;
    let (columns, b4) = crate::protocol::read_u32(b3)->Ok_0;
    let (rows, b5) = crate::protocol::read_u32(b4)->Ok_0;
    let (as_user, b6) = crate::protocol::read_optional(b5, alias_max)->Ok_0;
    let a = lemma_text_back(b0, alias_max, alias, b1);
    let t = lemma_auth_back(b1, auth, b2);
    let c = lemma_text_back(b2, term_max, term, b3);
    lemma_u32_back(b3, columns, b4);
    lemma_u32_back(b4, rows, b5);
    let x = crate::protocol::u32_bytes(columns);
    let y = crate::protocol::u32_bytes(rows);
    let d = lemma_optional_back(b5, alias_max, as_user, b6);
    assert(b6.len() == 0);
    assert(b =~= seq![5u8] + (a + (t + (c + (x + (y + d))))));
}

/// A client's frame that can be written is read as it was.
pub proof fn client_frames_come_through(frame: ClientView, b: Seq<u8>)
    requires
        crate::protocol::client_bytes(frame) == Ok::<Seq<u8>, FrameProblem>(b),
    ensures
        crate::protocol::client_frame(b) == Ok::<ClientView, FrameProblem>(frame),
        1 <= b.len() <= crate::protocol::MAX_FRAME_BYTES,
{
    let none = Seq::<u8>::empty();
    let alias_max = crate::protocol::MAX_ALIAS_BYTES as int;
    let chunk_max = crate::protocol::OUTPUT_CHUNK_BYTES as int;
    match frame {
        ClientView::Disconnect { alias } => {
            let a = crate::protocol::text_field(alias, alias_max)->Ok_0;
            lemma_text(alias, alias_max, a, none);
            assert(a + none =~= a);
            assert(b.skip(1) =~= a);
        },
        ClientView::Exec { alias, auth, command, as_user } => {
            lemma_exec(alias, auth, command, as_user, b);
        },
        ClientView::Shell { alias, auth, term, columns, rows, as_user } => {
            lemma_shell(alias, auth, term, columns, rows, as_user, b);
        },
        ClientView::Input(bytes) => {
            let a = crate::protocol::field(bytes, chunk_max)->Ok_0;
            lemma_field(bytes, chunk_max, a, none);
            assert(a + none =~= a);
            assert(b.skip(1) =~= a);
            reveal(crate::protocol::field);
        },
        ClientView::Resize { columns, rows } => {
            let x = crate::protocol::u32_bytes(columns);
            let y = crate::protocol::u32_bytes(rows);
            lemma_u32(columns, y);
            lemma_u32(rows, none);
            assert(y + none =~= y);
            assert(b.skip(1) =~= x + y);
        },
        ClientView::JumpAuthResponse { auth } => {
            let a = crate::protocol::auth_field(auth)->Ok_0;
            lemma_auth(auth, a, none);
            assert(a + none =~= a);
            assert(b.skip(1) =~= a);
        },
        _ => {
            assert(b.skip(1) =~= none);
        },
    }
}

/// Bytes that are read as a client's frame are the bytes of that frame: there
/// is one way to write it.
pub proof fn client_frames_are_written_one_way(b: Seq<u8>, frame: ClientView)
    requires
        crate::protocol::client_frame(b) == Ok::<ClientView, FrameProblem>(frame),
    ensures
        crate::protocol::client_bytes(frame) == Ok::<Seq<u8>, FrameProblem>(b),
{
    let alias_max = crate::protocol::MAX_ALIAS_BYTES as int;
    let chunk_max = crate::protocol::OUTPUT_CHUNK_BYTES as int;
    let tag = b[0];
    let b0 = b.skip(1);
    assert(b =~= seq![tag] + b0);
    if tag == 3 {
        let (alias, rest) = crate::protocol::read_text(b0, alias_max)->Ok_0;
        let a = lemma_text_back(b0, alias_max, alias, rest);
        assert(a + rest =~= a);
    } else if tag == 4 {
        lemma_exec_back(b, frame);
    } else if tag == 5 {
        lemma_shell_back(b, frame);
    } else if tag == 6 {
        let (bytes, rest) = crate::protocol::read_field(b0, chunk_max)->Ok_0;
        let a = lemma_field_back(b0, chunk_max, bytes, rest);
        assert(a + rest =~= a);
    } else if tag == 7 {
        let (columns, b1) = crate::protocol::read_u32(b0)->Ok_0;
        let (rows, b2) = crate::protocol::read_u32(b1)->Ok_0;
        lemma_u32_back(b0, columns, b1);
        lemma_u32_back(b1, rows, b2);
        assert(b1 =~= crate::protocol::u32_bytes(rows));
    } else if tag == 10 {
        let (auth, rest) = crate::protocol::read_auth(b0)->Ok_0;
        let a = lemma_auth_back(b0, auth, rest);
        assert(a + rest =~= a);
    } else {
        assert(b =~= seq![tag]);
    }
}

proof fn lemma_status(frame: ServerView, b: Seq<u8>)
    requires
        frame is Status,
        crate::protocol::server_bytes(frame) == Ok::<Seq<u8>, FrameProblem>(b),
    ensures
        crate::protocol::server_frame(b) == Ok::<ServerView, FrameProblem>(frame),
        b.len() == 41,
{
    match frame {
        ServerView::Status {
            total_connections,
            in_use_connections,
            active_leases,
            max_connections,
            available_capacity,
        } => {
            let none = Seq::<u8>::empty();
            let p = crate::protocol::u64_bytes(total_connections as u64);
            let q = crate::protocol::u64_bytes(in_use_connections as u64);
            let r = crate::protocol::u64_bytes(active_leases as u64);
            let s = crate::protocol::u64_bytes(max_connections as u64);
            let t = crate::protocol::u64_bytes(available_capacity as u64);
            lemma_counter(total_connections, q + (r + (s + t)));
            lemma_counter(in_use_connections, r + (s + t));
            lemma_counter(active_leases, s + t);
            lemma_counter(max_connections, t);
            lemma_counter(available_capacity, none);
            assert(t + none =~= t);
            assert(b.skip(1) =~= p + (q + (r + (s + t))));
        },
        _ => {},
    }
}

proof fn lemma_status_back(b: Seq<u8>, frame: ServerView)
    requires
        b.len() > 0,
        b[0] == 70,
        crate::protocol::server_frame(b) == Ok::<ServerView, FrameProblem>(frame),
    ensures
        crate::protocol::server_bytes(frame) == Ok::<Seq<u8>, FrameProblem>(b),
{
    let b0 = b.skip(1);
    let (n1, b1) = crate::protocol::read_counter(b0)->Ok_0;
    let (n2, b2) = crate::protocol::read_counter(b1)->Ok_0;
    let (n3, b3) = crate::protocol::read_counter(b2)->Ok_0;
    let (n4, b4) = crate::protocol::read_counter(b3)->Ok_0;
    let (n5, b5) = crate::protocol::read_counter(b4)->Ok_0;
    lemma_counter_back(b0, n1, b1);
    lemma_counter_back(b1, n2, b2);
    lemma_counter_back(b2, n3, b3);
    lemma_counter_back(b3, n4, b4);
    lemma_counter_back(b4, n5, b5);
    let p = crate::protocol::u64_bytes(n1 as u64);
    let q = crate::protocol::u64_bytes(n2 as u64);
    let r = crate::protocol::u64_bytes(n3 as u64);
    let s = crate::protocol::u64_bytes(n4 as u64);
    let t = crate::protocol::u64_bytes(n5 as u64);
    assert(b5.len() == 0);
    assert(b =~= seq![70u8] + (p + (q + (r + (s + t)))));
}

proof fn lemma_challenge(frame: ServerView, b: Seq<u8>)
    requires
        frame is JumpAuthChallenge,
        crate::protocol::server_bytes(frame) == Ok::<Seq<u8>, FrameProblem>(b),
    ensures
        crate::protocol::server_frame(b) == Ok::<ServerView, FrameProblem>(frame),
        b.len() <= 10000,
{
    let alias_max = crate::protocol::MAX_ALIAS_BYTES as int;
    let path_max = crate::protocol::MAX_PATH_BYTES as int;
    match frame {
        ServerView::JumpAuthChallenge {
            index,
            total,
            attempt,
            alias,
            host,
            port,
            previous_failed,
        } => {
            let x = crate::protocol::u32_bytes(index as u32);
            let y = crate::protocol::u32_bytes(total as u32);
            let z = crate::protocol::u32_bytes(attempt as u32);
            let c = crate::protocol::text_field(alias, alias_max)->Ok_0;
            let d = crate::protocol::text_field(host, path_max)->Ok_0;
            let e = crate::protocol::u16_bytes(port);
            let f = crate::protocol::flag_bytes(previous_failed);
            lemma_u32(index as u32, y + (z + (c + (d + (e + f)))));
            lemma_u32(total as u32, z + (c + (d + (e + f))));
            lemma_u32(attempt as u32, c + (d + (e + f)));
            lemma_text(alias, alias_max, c, d + (e + f));
            lemma_text(host, path_max, d, e + f);
            lemma_u16(port, f);
            assert(f.skip(1) =~= Seq::<u8>::empty());
            assert(b.skip(1) =~= x + (y + (z + (c + (d + (e + f))))));
        },
        _ => {},
    }
}

proof fn lemma_challenge_back(b: Seq<u8>, frame: ServerView)
    requires
        b.len() > 0,
        b[0] == 72,
        crate::protocol::server_frame(b) == Ok::<ServerView, FrameProblem>(frame),
    ensures
        crate::protocol::server_bytes(frame) == Ok::<Seq<u8>, FrameProblem>(b),
{
    let alias_max = crate::protocol::MAX_ALIAS_BYTES as int;
    let path_max = crate::protocol::MAX_PATH_BYTES as int;
    let b0 = b.skip(1);
    let (index, b1) = crate::protocol::read_u32(b0)->Ok_0;
    let (total, b2) = crate::protocol::read_u32(b1)->Ok_0;
    let (attempt, b3) = crate::protocol::read_u32(b2)->Ok_0;
    let (alias, b4) = crate::protocol::read_text(b3, alias_max)->Ok_0;
    let (host, b5) = crate::protocol::read_text(b4, path_max)->Ok_0;
    let (port, b6) = crate::protocol::read_u16(b5)->Ok_0;
    let (previous_failed, b7) = crate::protocol::read_flag(b6)->Ok_0;
    lemma_u32_back(b0, index, b1);
    lemma_u32_back(b1, total, b2);
    lemma_u32_back(b2, attempt, b3);
    let c = lemma_text_back(b3, alias_max, alias, b4);
    let d = lemma_text_back(b4, path_max, host, b5);
    lemma_u16_back(b5, port, b6);
    let x = crate::protocol::u32_bytes(index);
    let y = crate::protocol::u32_bytes(total);
    let z = crate::protocol::u32_bytes(attempt);
    let e = crate::protocol::u16_bytes(port);
    let f = crate::protocol::flag_bytes(previous_failed);
    assert(b7.len() == 0);
    assert(b6 =~= f);
    assert(b =~= seq![72u8] + (x + (y + (z + (c + (d + (e + f)))))));
}

/// A frame of the daemon that can be written is read as it was.
pub proof fn server_frames_come_through(frame: ServerView, b: Seq<u8>)
    requires
        crate::protocol::server_bytes(frame) == Ok::<Seq<u8>, FrameProblem>(b),
    ensures
        crate::protocol::server_frame(b) == Ok::<ServerView, FrameProblem>(frame),
        1 <= b.len() <= crate::protocol::MAX_FRAME_BYTES,
{
    let none = Seq::<u8>::empty();
    let command_max = crate::protocol::MAX_COMMAND_BYTES as int;
    let chunk_max = crate::protocol::OUTPUT_CHUNK_BYTES as int;
    match frame {
        ServerView::Error(message) => {
            let a = crate::protocol::text_field(message, command_max)->Ok_0;
            lemma_text(message, command_max, a, none);
            assert(a + none =~= a);
            assert(b.skip(1) =~= a);
        },
        ServerView::Stdout(bytes) => {
            let a = crate::protocol::field(bytes, chunk_max)->Ok_0;
            lemma_field(bytes, chunk_max, a, none);
            assert(a + none =~= a);
            assert(b.skip(1) =~= a);
            reveal(crate::protocol::field);
        },
        ServerView::Stderr(bytes) => {
            let a = crate::protocol::field(bytes, chunk_max)->Ok_0;
            lemma_field(bytes, chunk_max, a, none);
            assert(a + none =~= a);
            assert(b.skip(1) =~= a);
            reveal(crate::protocol::field);
        },
        ServerView::Exit(status) => {
            match status {
                Some(code) => {
                    let x = crate::protocol::u32_bytes(code);
                    lemma_u32(code, none);
                    assert(x + none =~= x);
                    assert(b.skip(1) =~= seq![1u8] + x);
                    assert(b.skip(1).skip(1) =~= x);
                },
                None => {
                    assert(b.skip(1) =~= seq![0u8]);
                    assert(b.skip(1).skip(1) =~= none);
                },
            }
        },
        ServerView::Status { .. } => {
            lemma_status(frame, b);
        },
        ServerView::Cache { reused } => {
            assert(b.skip(1) =~= crate::protocol::flag_bytes(reused));
            assert(b.skip(1).skip(1) =~= none);
        },
        ServerView::JumpAuthChallenge { .. } => {
            lemma_challenge(frame, b);
        },
        _ => {
            assert(b.skip(1) =~= none);
        },
    }
}

/// Bytes that are read as a frame of the daemon are the bytes of that frame.
pub proof fn server_frames_are_written_one_way(b: Seq<u8>, frame: ServerView)
    requires
        crate::protocol::server_frame(b) == Ok::<ServerView, FrameProblem>(frame),
    ensures
        crate::protocol::server_bytes(frame) == Ok::<Seq<u8>, FrameProblem>(b),
{
    let command_max = crate::protocol::MAX_COMMAND_BYTES as int;
    let chunk_max = crate::protocol::OUTPUT_CHUNK_BYTES as int;
    let tag = b[0];
    let b0 = b.skip(1);
    assert(b =~= seq![tag] + b0);
    if tag == 65 {
        let (message, rest) = crate::protocol::read_text(b0, command_max)->Ok_0;
        let a = lemma_text_back(b0, command_max, message, rest);
        assert(a + rest =~= a);
    } else if tag == 67 || tag == 68 {
        let (bytes, rest) = crate::protocol::read_field(b0, chunk_max)->Ok_0;
        let a = lemma_field_back(b0, chunk_max, bytes, rest);
        assert(a + rest =~= a);
    } else if tag == 69 {
        let n = b0[0];
        if n == 1 {
            let (code, rest) = crate::protocol::read_u32(b0.skip(1))->Ok_0;
            lemma_u32_back(b0.skip(1), code, rest);
            assert(b0 =~= seq![1u8] + crate::protocol::u32_bytes(code));
        } else {
            assert(b0 =~= seq![0u8]);
        }
    } else if tag == 70 {
        lemma_status_back(b, frame);
    } else if tag == 71 {
        let (reused, rest) = crate::protocol::read_flag(b0)->Ok_0;
        assert(b0 =~= crate::protocol::flag_bytes(reused));
    } else if tag == 72 {
        lemma_challenge_back(b, frame);
    } else {
        assert(b =~= seq![tag]);
    }
}

/// A payload that can be framed is found behind its length.
pub proof fn framed_payloads_come_through(payload: Seq<u8>, b: Seq<u8>)
    requires
        crate::protocol::framed(payload) == Ok::<Seq<u8>, FrameProblem>(b),
    ensures
        crate::protocol::announced(b.take(4)) == Ok::<int, FrameProblem>(payload.len() as int),
        b.skip(4) == payload,
{
    lemma_u32(payload.len() as u32, payload);
    reveal(crate::protocol::read_u32);
    assert(b.skip(4) =~= payload);
    let head = b.take(4);
    assert(head[0] == b[0] && head[1] == b[1] && head[2] == b[2] && head[3] == b[3]);
    assert(0 <= crate::protocol::four(b) <= u32::MAX);
}

/// The two requests ask for the same, whatever their secrets.
pub open spec fn same_but_for_secrets(a: RequestView, b: RequestView) -> bool {
    match (a, b) {
        (RequestView::Password(_), RequestView::Password(_)) => true,
        (RequestView::KeyboardInteractive(_), RequestView::KeyboardInteractive(_)) => true,
        (
            RequestView::PrivateKey { path: p, passphrase: x },
            RequestView::PrivateKey { path: q, passphrase: y },
        ) => p == q && (x is Some) == (y is Some),
        _ => a == b,
    }
}

/// What is shown of a request does not tell its secrets.
pub proof fn descriptions_hide_secrets(a: RequestView, b: RequestView)
    requires
        same_but_for_secrets(a, b),
    ensures
        a.shown() == b.shown(),
{
}

// What is read at the front of some bytes is read there whatever follows them.

proof fn lemma_u8_more(b: Seq<u8>, more: Seq<u8>)
    ensures
        crate::protocol::read_u8(b) matches Ok((v, s)) ==> crate::protocol::read_u8(b + more) == Ok::<
            (u8, Seq<u8>),
            FrameProblem,
        >((v, s + more)),
{
    if b.len() > 0 {
        assert((b + more).skip(1) =~= b.skip(1) + more);
    }
}

proof fn lemma_flag_more(b: Seq<u8>, more: Seq<u8>)
    ensures
        crate::protocol::read_flag(b) matches Ok((v, s)) ==> crate::protocol::read_flag(b + more) == Ok::<
            (bool, Seq<u8>),
            FrameProblem,
        >((v, s + more)),
{
    lemma_u8_more(b, more);
}

proof fn lemma_u16_more(b: Seq<u8>, more: Seq<u8>)
    ensures
        crate::protocol::read_u16(b) matches Ok((v, s)) ==> crate::protocol::read_u16(b + more) == Ok::<
            (u16, Seq<u8>),
            FrameProblem,
        >((v, s + more)),
{
    reveal(crate::protocol::read_u16);
    if b.len() >= 2 {
        assert((b + more).skip(2) =~= b.skip(2) + more);
    }
}

proof fn lemma_u32_more(b: Seq<u8>, more: Seq<u8>)
    ensures
        crate::protocol::read_u32(b) matches Ok((v, s)) ==> crate::protocol::read_u32(b + more) == Ok::<
            (u32, Seq<u8>),
            FrameProblem,
        >((v, s + more)),
{
    reveal(crate::protocol::read_u32);
    if b.len() >= 4 {
        assert((b + more).skip(4) =~= b.skip(4) + more);
    }
}

proof fn lemma_counter_more(b: Seq<u8>, more: Seq<u8>)
    ensures
        crate::protocol::read_counter(b) matches Ok((v, s)) ==> crate::protocol::read_counter(b + more) == Ok::<
            (usize, Seq<u8>),
            FrameProblem,
        >((v, s + more)),
{
    reveal(crate::protocol::read_counter);
    if b.len() >= 8 {
        assert((b + more).skip(4) =~= b.skip(4) + more);
        assert((b + more).skip(8) =~= b.skip(8) + more);
    }
}

proof fn lemma_field_more(b: Seq<u8>, max: int, more: Seq<u8>)
    ensures
        crate::protocol::read_field(b, max) matches Ok((v, s)) ==> crate::protocol::read_field(b + more, max) == Ok::<
            (Seq<u8>, Seq<u8>),
            FrameProblem,
        >((v, s + more)),
{
    reveal(crate::protocol::read_field);
    lemma_u32_more(b, more);
    if let Ok((n, rest)) = crate::protocol::read_u32(b) {
        if n <= rest.len() {
            assert((rest + more).take(n as int) =~= rest.take(n as int));
            assert((rest + more).skip(n as int) =~= rest.skip(n as int) + more);
        }
    }
}

proof fn lemma_text_more(b: Seq<u8>, max: int, more: Seq<u8>)
    ensures
        crate::protocol::read_text(b, max) matches Ok((v, s)) ==> crate::protocol::read_text(b + more, max) == Ok::<
            (Seq<char>, Seq<u8>),
            FrameProblem,
        >((v, s + more)),
{
    reveal(crate::protocol::read_text);
    lemma_field_more(b, max, more);
}

proof fn lemma_optional_more(b: Seq<u8>, max: int, more: Seq<u8>)
    ensures
        crate::protocol::read_optional(b, max) matches Ok((v, s)) ==> crate::protocol::read_optional(b + more, max) == Ok::<
            (Option<Seq<char>>, Seq<u8>),
            FrameProblem,
        >((v, s + more)),
{
    reveal(crate::protocol::read_optional);
    lemma_u8_more(b, more);
    if b.len() > 0 {
        lemma_text_more(b.skip(1), max, more);
    }
}

proof fn lemma_auth_more(b: Seq<u8>, more: Seq<u8>)
    ensures
        crate::protocol::read_auth(b) matches Ok((v, s)) ==> crate::protocol::read_auth(b + more) == Ok::<
            (Option<RequestView>, Seq<u8>),
            FrameProblem,
        >((v, s + more)),
{
    reveal(crate::protocol::read_auth);
    lemma_u8_more(b, more);
    if b.len() > 0 {
        let rest = b.skip(1);
        let secret_max = crate::protocol::MAX_SECRET_BYTES as int;
        let path_max = crate::protocol::MAX_PATH_BYTES as int;
        lemma_text_more(rest, secret_max, more);
        lemma_text_more(rest, path_max, more);
        if let Ok((path, left)) = crate::protocol::read_text(rest, path_max) {
            lemma_optional_more(left, secret_max, more);
        }
    }
}

proof fn lemma_exec_more(b: Seq<u8>, more: Seq<u8>)
    ensures
        crate::protocol::read_exec(b) matches Ok((v, s)) ==> crate::protocol::read_exec(b + more) == Ok::<
            (ClientView, Seq<u8>),
            FrameProblem,
        >((v, s + more)),
{
    let alias_max = crate::protocol::MAX_ALIAS_BYTES as int;
    lemma_text_more(b, alias_max, more);
    if let Ok((_, b1)) = crate::protocol::read_text(b, alias_max) {
        lemma_auth_more(b1, more);
        if let Ok((_, b2)) = crate::protocol::read_auth(b1) {
            lemma_text_more(b2, crate::protocol::MAX_COMMAND_BYTES as int, more);
            if let Ok((_, b3)) = crate::protocol::read_text(b2, crate::protocol::MAX_COMMAND_BYTES as int) {
                lemma_optional_more(b3, alias_max, more);
            }
        }
    }
}

proof fn lemma_shell_more(b: Seq<u8>, more: Seq<u8>)
    ensures
        crate::protocol::read_shell(b) matches Ok((v, s)) ==> crate::protocol::read_shell(b + more) == Ok::<
            (ClientView, Seq<u8>),
            FrameProblem,
        >((v, s + more)),
{
    let alias_max = crate::protocol::MAX_ALIAS_BYTES as int;
    lemma_text_more(b, alias_max, more);
    if let Ok((_, b1)) = crate::protocol::read_text(b, alias_max) {
        lemma_auth_more(b1, more);
        if let Ok((_, b2)) = crate::protocol::read_auth(b1) {
            lemma_text_more(b2, crate::protocol::MAX_TERM_BYTES as int, more);
            if let Ok((_, b3)) = crate::protocol::read_text(b2, crate::protocol::MAX_TERM_BYTES as int) {
                lemma_u32_more(b3, more);
                if let Ok((_, b4)) = crate::protocol::read_u32(b3) {
                    lemma_u32_more(b4, more);
                    if let Ok((_, b5)) = crate::protocol::read_u32(b4) {
                        lemma_optional_more(b5, alias_max, more);
                    }
                }
            }
        }
    }
}

proof fn lemma_status_more(b: Seq<u8>, more: Seq<u8>)
    ensures
        crate::protocol::read_status(b) matches Ok((v, s)) ==> crate::protocol::read_status(b + more) == Ok::<
            (ServerView, Seq<u8>),
            FrameProblem,
        >((v, s + more)),
{
    lemma_counter_more(b, more);
    if let Ok((_, b1)) = crate::protocol::read_counter(b) {
        lemma_counter_more(b1, more);
        if let Ok((_, b2)) = crate::protocol::read_counter(b1) {
            lemma_counter_more(b2, more);
            if let Ok((_, b3)) = crate::protocol::read_counter(b2) {
                lemma_counter_more(b3, more);
                if let Ok((_, b4)) = crate::protocol::read_counter(b3) {
                    lemma_counter_more(b4, more);
                }
            }
        }
    }
}

proof fn lemma_challenge_more(b: Seq<u8>, more: Seq<u8>)
    ensures
        crate::protocol::read_challenge(b) matches Ok((v, s)) ==> crate::protocol::read_challenge(b + more) == Ok::<
            (ServerView, Seq<u8>),
            FrameProblem,
        >((v, s + more)),
{
    let alias_max = crate::protocol::MAX_ALIAS_BYTES as int;
    lemma_u32_more(b, more);
    if let Ok((_, b1)) = crate::protocol::read_u32(b) {
        lemma_u32_more(b1, more);
        if let Ok((_, b2)) = crate::protocol::read_u32(b1) {
            lemma_u32_more(b2, more);
            if let Ok((_, b3)) = crate::protocol::read_u32(b2) {
                lemma_text_more(b3, alias_max, more);
                if let Ok((_, b4)) = crate::protocol::read_text(b3, alias_max) {
                    lemma_text_more(b4, crate::protocol::MAX_PATH_BYTES as int, more);
                    if let Ok((_, b5)) = crate::protocol::read_text(b4, crate::protocol::MAX_PATH_BYTES as int) {
                        lemma_u16_more(b5, more);
                        if let Ok((_, b6)) = crate::protocol::read_u16(b5) {
                            lemma_flag_more(b6, more);
                        }
                    }
                }
            }
        }
    }
}

proof fn lemma_client_more(b: Seq<u8>, more: Seq<u8>)
    requires
        crate::protocol::client_frame(b) is Ok,
        more.len() > 0,
    ensures
        crate::protocol::client_frame(b + more) is Err,
{
    let rest = b.skip(1);
    lemma_u8_more(b, more);
    assert((b + more).skip(1) =~= rest + more);
    lemma_text_more(rest, crate::protocol::MAX_ALIAS_BYTES as int, more);
    lemma_exec_more(rest, more);
    lemma_shell_more(rest, more);
    lemma_field_more(rest, crate::protocol::OUTPUT_CHUNK_BYTES as int, more);
    lemma_u32_more(rest, more);
    if let Ok((_, b1)) = crate::protocol::read_u32(rest) {
        lemma_u32_more(b1, more);
    }
    lemma_auth_more(rest, more);
}

proof fn lemma_server_more(b: Seq<u8>, more: Seq<u8>)
    requires
        crate::protocol::server_frame(b) is Ok,
        more.len() > 0,
    ensures
        crate::protocol::server_frame(b + more) is Err,
{
    let rest = b.skip(1);
    lemma_u8_more(b, more);
    assert((b + more).skip(1) =~= rest + more);
    lemma_text_more(rest, crate::protocol::MAX_COMMAND_BYTES as int, more);
    lemma_field_more(rest, crate::protocol::OUTPUT_CHUNK_BYTES as int, more);
    lemma_u8_more(rest, more);
    if rest.len() > 0 {
        lemma_u32_more(rest.skip(1), more);
    }
    lemma_status_more(rest, more);
    lemma_flag_more(rest, more);
    lemma_challenge_more(rest, more);
}

/// The bytes of a client's frame are taken whole: neither a part of them that
/// ends early nor the bytes with others behind them are a frame.
pub proof fn client_frames_are_taken_whole(frame: ClientView, b: Seq<u8>, n: int, more: Seq<u8>)
    requires
        crate::protocol::client_bytes(frame) == Ok::<Seq<u8>, FrameProblem>(b),
    ensures
        0 <= n < b.len() ==> crate::protocol::client_frame(b.take(n)) is Err,
        more.len() > 0 ==> crate::protocol::client_frame(b + more) is Err,
{
    client_frames_come_through(frame, b);
    if more.len() > 0 {
        lemma_client_more(b, more);
    }
    if 0 <= n < b.len() && crate::protocol::client_frame(b.take(n)) is Ok {
        lemma_client_more(b.take(n), b.skip(n));
        assert(b.take(n) + b.skip(n) =~= b);
    }
}

/// The bytes of a frame of the daemon are taken whole, too.
pub proof fn server_frames_are_taken_whole(frame: ServerView, b: Seq<u8>, n: int, more: Seq<u8>)
    requires
        crate::protocol::server_bytes(frame) == Ok::<Seq<u8>, FrameProblem>(b),
    ensures
        0 <= n < b.len() ==> crate::protocol::server_frame(b.take(n)) is Err,
        more.len() > 0 ==> crate::protocol::server_frame(b + more) is Err,
{
    server_frames_come_through(frame, b);
    if more.len() > 0 {
        lemma_server_more(b, more);
    }
    if 0 <= n < b.len() && crate::protocol::server_frame(b.take(n)) is Ok {
        lemma_server_more(b.take(n), b.skip(n));
        assert(b.take(n) + b.skip(n) =~= b);
    }
}

} // verus!
