//! The text form of the host library: a small TOML subset with one table per
//! host, chain and hop. Secrets have no place in it.

use vstd::prelude::*;
use vstd::string::*;

use crate::model::HostDatabase;
use crate::model::HostDatabaseView;
use crate::model::HostError;
use crate::model::HostProblem;
use crate::model::HostRecord;
use crate::model::HostRecordView;
use crate::model::HostStats;
use crate::model::InlineJump;
use crate::model::InlineJumpView;
use crate::model::JumpChain;
use crate::model::JumpChainView;
use crate::model::JumpHop;
use crate::model::JumpHopView;
use crate::model::StoredAuthMethod;
use crate::model::StoredHostKeyPolicy;
use crate::model::DATABASE_VERSION;
use crate::text::chars_of;
use crate::text::decimal_text;
use crate::text::lines_of;
use crate::text::same_text;
use crate::text::text_between;
use crate::text::trimmed;
use crate::text_map::TextMap;

verus! {

/// Largest text that the parser takes.
pub const MAX_DATABASE_BYTES: usize = 4194304;

/// What is wrong with one assignment.
#[derive(Debug, Clone, Copy, PartialEq, Eq, Structural)]
pub enum ValueProblem {
    MissingEquals,
    BadKey,
    NoValue,
    UnterminatedString,
    NotAString,
    ControlCharacter,
    TrailingEscape,
    UnknownEscape,
    UnterminatedArray,
    UnterminatedArrayString,
    IntegerRange,
    UnsupportedValue,
}

/// Why a text is no host library.
#[derive(Debug, Clone, Copy, PartialEq, Eq, Structural)]
pub enum CodecError {
    TooLarge,
    Comment { line: usize },
    Header,
    Assignment { line: usize, problem: ValueProblem },
    DuplicateKey { line: usize },
    FieldType,
    MissingVersion,
    UnsupportedVersion,
    UnknownKey { line: usize },
    MissingField { line: usize },
    Port { line: usize },
    HopIndexMissing,
    HopIndexRange,
    HopKind { line: usize },
    Host(HostProblem),
    DuplicateHost,
    DuplicateChain,
    HopChainMissing,
    HopIndices,
}

/// Where a reader of quoted text stands.
#[derive(Debug, Clone, Copy, PartialEq, Eq, Structural)]
pub enum Quote {
    Plain,
    Quoted,
    Escaped,
}

pub open spec fn quote_step(q: Quote, c: char) -> Quote {
    match q {
        Quote::Plain => if c == '"' {
            Quote::Quoted
        } else {
            Quote::Plain
        },
        Quote::Quoted => if c == '\\' {
            Quote::Escaped
        } else if c == '"' {
            Quote::Plain
        } else {
            Quote::Quoted
        },
        Quote::Escaped => Quote::Quoted,
    }
}

/// Where the reader stands after `s`.
pub open spec fn quote_after(s: Seq<char>, q: Quote) -> Quote
    decreases s.len(),
{
    if s.len() == 0 {
        q
    } else {
        quote_after(s.drop_first(), quote_step(q, s[0]))
    }
}

/// Characters before the first `stop` outside quotes; the whole length where
/// there is none.
pub open spec fn unquoted_position(s: Seq<char>, stop: char, q: Quote) -> int
    decreases s.len(),
{
    if s.len() == 0 || (q is Plain && s[0] == stop) {
        0
    } else {
        1 + unquoted_position(s.drop_first(), stop, quote_step(q, s[0]))
    }
}

/// The line without its comment; nothing where a string stays open.
pub open spec fn strip_comment(s: Seq<char>) -> Option<Seq<char>> {
    let p = unquoted_position(s, '#', Quote::Plain);
    if p < s.len() {
        Some(s.take(p))
    } else if quote_after(s, Quote::Plain) is Plain {
        Some(s)
    } else {
        None
    }
}

/// A value of an assignment.
#[derive(Debug, Clone, PartialEq, Eq)]
pub enum Value {
    Text(String),
    Integer(u64),
    Texts(Vec<String>),
}

#[verifier::ext_equal]
pub enum ValueView {
    Text(Seq<char>),
    Integer(u64),
    Texts(Seq<Seq<char>>),
}

impl View for Value {
    type V = ValueView;

    open spec fn view(&self) -> ValueView {
        match *self {
            Value::Text(t) => ValueView::Text(t@),
            Value::Integer(n) => ValueView::Integer(n),
            Value::Texts(v) => ValueView::Texts(crate::text::views(v@)),
        }
    }
}

/// What the escape `\c` stands for.
pub open spec fn unescaped(c: char) -> Option<char> {
    if c == '"' {
        Some('"')
    } else if c == '\\' {
        Some('\\')
    } else if c == 'n' {
        Some('\n')
    } else if c == 'r' {
        Some('\r')
    } else if c == 't' {
        Some('\t')
    } else {
        None
    }
}

/// The text that the inside of a quoted string stands for, after `done`.
pub open spec fn unescape(done: Seq<char>, s: Seq<char>) -> Result<Seq<char>, ValueProblem>
    decreases s.len(),
{
    if s.len() == 0 {
        Ok(done)
    } else if s[0] != '\\' {
        if crate::text::is_control(s[0]) {
            Err(ValueProblem::ControlCharacter)
        } else {
            unescape(done.push(s[0]), s.drop_first())
        }
    } else if s.len() < 2 {
        Err(ValueProblem::TrailingEscape)
    } else {
        match unescaped(s[1]) {
            Some(c) => unescape(done.push(c), s.skip(2)),
            None => Err(ValueProblem::UnknownEscape),
        }
    }
}

pub open spec fn parse_string(s: Seq<char>) -> Result<Seq<char>, ValueProblem> {
    if s.len() < 2 || s.last() != '"' {
        Err(ValueProblem::UnterminatedString)
    } else if s[0] != '"' {
        Err(ValueProblem::NotAString)
    } else {
        unescape(Seq::empty(), s.subrange(1, s.len() - 1))
    }
}

/// The strings of a comma-separated list, after `done`.
pub open spec fn array_items(done: Seq<Seq<char>>, s: Seq<char>) -> Result<
    Seq<Seq<char>>,
    ValueProblem,
>
    decreases s.len(),
{
    let p = unquoted_position(s, ',', Quote::Plain);
    if 0 <= p < s.len() {
        match parse_string(crate::text::trim(s.take(p))) {
            Ok(item) => array_items(done.push(item), s.skip(p + 1)),
            Err(e) => Err(e),
        }
    } else if !(quote_after(s, Quote::Plain) is Plain) {
        Err(ValueProblem::UnterminatedArrayString)
    } else {
        match parse_string(crate::text::trim(s)) {
            Ok(item) => Ok(done.push(item)),
            Err(e) => Err(e),
        }
    }
}

pub open spec fn parse_array(s: Seq<char>) -> Result<Seq<Seq<char>>, ValueProblem> {
    if s.len() < 2 || s.last() != ']' {
        Err(ValueProblem::UnterminatedArray)
    } else {
        let inner = crate::text::trim(s.subrange(1, s.len() - 1));
        if inner.len() == 0 {
            Ok(Seq::empty())
        } else {
            array_items(Seq::empty(), inner)
        }
    }
}

pub open spec fn parse_value(s: Seq<char>) -> Result<ValueView, ValueProblem> {
    if s.len() > 0 && s[0] == '"' {
        match parse_string(s) {
            Ok(text) => Ok(ValueView::Text(text)),
            Err(e) => Err(e),
        }
    } else if s.len() > 0 && s[0] == '[' {
        match parse_array(s) {
            Ok(texts) => Ok(ValueView::Texts(texts)),
            Err(e) => Err(e),
        }
    } else if crate::text::all_digits(s) {
        match crate::text::parse_unsigned(s, u64::MAX as nat) {
            Some(n) => Ok(ValueView::Integer(n as u64)),
            None => Err(ValueProblem::IntegerRange),
        }
    } else {
        Err(ValueProblem::UnsupportedValue)
    }
}

pub open spec fn is_key_char(c: char) -> bool {
    crate::text::is_ascii_alphanumeric(c) || c == '_'
}

pub open spec fn is_key(s: Seq<char>) -> bool {
    s.len() > 0 && forall|i: int| 0 <= i < s.len() ==> is_key_char(#[trigger] s[i])
}

/// The key and value of `key = value`.
pub open spec fn parse_assignment(line: Seq<char>) -> Result<(Seq<char>, ValueView), ValueProblem> {
    let p = unquoted_position(line, '=', Quote::Plain);
    if p >= line.len() {
        Err(ValueProblem::MissingEquals)
    } else {
        let key = crate::text::trim(line.take(p));
        let value = crate::text::trim(line.skip(p + 1));
        if !is_key(key) {
            Err(ValueProblem::BadKey)
        } else if value.len() == 0 {
            Err(ValueProblem::NoValue)
        } else {
            match parse_value(value) {
                Ok(v) => Ok((key, v)),
                Err(e) => Err(e),
            }
        }
    }
}

#[derive(Debug, Clone, Copy, PartialEq, Eq, Structural)]
pub enum TableKind {
    Host,
    Chain,
    Hop,
}

/// The table that a header line opens; nothing where the line is no header.
pub open spec fn parse_header(line: Seq<char>) -> Result<Option<TableKind>, CodecError> {
    if line.len() == 0 || line[0] != '[' {
        Ok(None)
    } else if line == "[[host]]"@ {
        Ok(Some(TableKind::Host))
    } else if line == "[[chain]]"@ {
        Ok(Some(TableKind::Chain))
    } else if line == "[[hop]]"@ {
        Ok(Some(TableKind::Hop))
    } else {
        Err(CodecError::Header)
    }
}

/// One table with the line of its header.
#[derive(Debug, PartialEq, Eq)]
pub struct Table {
    pub kind: TableKind,
    pub line: usize,
    pub values: TextMap<Value>,
}

#[verifier::ext_equal]
pub struct TableView {
    pub kind: TableKind,
    pub line: usize,
    pub values: Seq<(Seq<char>, ValueView)>,
}

pub open spec fn value_view() -> spec_fn(Value) -> ValueView {
    |v: Value| v@
}

pub open spec fn fields_view(values: TextMap<Value>) -> Seq<(Seq<char>, ValueView)> {
    crate::text_map::map_entries(values.entries(), value_view())
}

impl View for Table {
    type V = TableView;

    open spec fn view(&self) -> TableView {
        TableView { kind: self.kind, line: self.line, values: fields_view(self.values) }
    }
}

pub open spec fn table_views(tables: Seq<Table>) -> Seq<TableView> {
    tables.map_values(|t: Table| t@)
}

pub open spec fn current_view(current: Option<Table>) -> Option<TableView> {
    match current {
        Some(t) => Some(t@),
        None => None,
    }
}

/// What has been read of a text so far.
#[verifier::ext_equal]
pub struct ScanView {
    pub root: Seq<(Seq<char>, ValueView)>,
    pub tables: Seq<TableView>,
    pub current: Option<TableView>,
}

impl ScanView {
    /// Every table, the one still open included.
    pub open spec fn all_tables(self) -> Seq<TableView> {
        match self.current {
            Some(t) => self.tables.push(t),
            None => self.tables,
        }
    }
}

/// The reader's state after one more line.
pub open spec fn scan_line(st: ScanView, raw: Seq<char>, line_no: usize) -> Result<
    ScanView,
    CodecError,
> {
    match strip_comment(raw) {
        None => Err(CodecError::Comment { line: line_no }),
        Some(kept) => {
            let line = crate::text::trim(kept);
            if line.len() == 0 {
                Ok(st)
            } else {
                match parse_header(line) {
                    Err(e) => Err(e),
                    Ok(Some(kind)) => Ok(
                        ScanView {
                            root: st.root,
                            tables: st.all_tables(),
                            current: Some(
                                TableView { kind, line: line_no, values: Seq::empty() },
                            ),
                        },
                    ),
                    Ok(None) => match parse_assignment(line) {
                        Err(problem) => Err(CodecError::Assignment { line: line_no, problem }),
                        Ok((key, value)) => match st.current {
                            Some(t) => if crate::text_map::has_key(t.values, key) {
                                Err(CodecError::DuplicateKey { line: line_no })
                            } else {
                                Ok(
                                    ScanView {
                                        current: Some(
                                            TableView {
                                                values: crate::text_map::put(t.values, key, value),
                                                ..t
                                            },
                                        ),
                                        ..st
                                    },
                                )
                            },
                            None => if crate::text_map::has_key(st.root, key) {
                                Err(CodecError::DuplicateKey { line: line_no })
                            } else {
                                Ok(
                                    ScanView {
                                        root: crate::text_map::put(st.root, key, value),
                                        ..st
                                    },
                                )
                            },
                        },
                    },
                }
            }
        },
    }
}

/// The reader's state after the lines from index `i` on.
pub open spec fn scan(st: ScanView, all: Seq<Seq<char>>, i: int) -> Result<ScanView, CodecError>
    decreases all.len() - i,
{
    if i < 0 || i >= all.len() {
        Ok(st)
    } else {
        match scan_line(st, all[i], (i + 1) as usize) {
            Err(e) => Err(e),
            Ok(next) => scan(next, all, i + 1),
        }
    }
}

pub open spec fn text_field(values: Seq<(Seq<char>, ValueView)>, key: Seq<char>) -> Result<
    Option<Seq<char>>,
    CodecError,
> {
    match crate::text_map::lookup(values, key) {
        None => Ok(None),
        Some(ValueView::Text(t)) => Ok(Some(t)),
        Some(_) => Err(CodecError::FieldType),
    }
}

pub open spec fn integer_field(values: Seq<(Seq<char>, ValueView)>, key: Seq<char>) -> Result<
    Option<u64>,
    CodecError,
> {
    match crate::text_map::lookup(values, key) {
        None => Ok(None),
        Some(ValueView::Integer(n)) => Ok(Some(n)),
        Some(_) => Err(CodecError::FieldType),
    }
}

pub open spec fn texts_field(values: Seq<(Seq<char>, ValueView)>, key: Seq<char>) -> Result<
    Seq<Seq<char>>,
    CodecError,
> {
    match crate::text_map::lookup(values, key) {
        None => Ok(Seq::empty()),
        Some(ValueView::Texts(v)) => Ok(v),
        Some(_) => Err(CodecError::FieldType),
    }
}

pub open spec fn required_field(
    values: Seq<(Seq<char>, ValueView)>,
    key: Seq<char>,
    line: usize,
) -> Result<Seq<char>, CodecError> {
    match text_field(values, key) {
        Err(e) => Err(e),
        Ok(None) => Err(CodecError::MissingField { line }),
        Ok(Some(t)) => Ok(t),
    }
}

/// A port of a table: 22 where none is given.
pub open spec fn port_field(values: Seq<(Seq<char>, ValueView)>, line: usize) -> Result<
    u16,
    CodecError,
> {
    match integer_field(values, "port"@) {
        Err(e) => Err(e),
        Ok(None) => Ok(22),
        Ok(Some(n)) => if 0 < n <= u16::MAX {
            Ok(n as u16)
        } else {
            Err(CodecError::Port { line })
        },
    }
}

pub open spec fn policy_field(values: Seq<(Seq<char>, ValueView)>) -> Result<
    StoredHostKeyPolicy,
    CodecError,
> {
    match text_field(values, "host_key_policy"@) {
        Err(e) => Err(e),
        Ok(None) => Ok(StoredHostKeyPolicy::AcceptNew),
        Ok(Some(t)) => match StoredHostKeyPolicy::named(t) {
            Some(policy) => Ok(policy),
            None => Err(CodecError::Host(HostProblem::UnknownHostKeyPolicy)),
        },
    }
}

pub open spec fn auth_field(values: Seq<(Seq<char>, ValueView)>) -> Result<
    Option<StoredAuthMethod>,
    CodecError,
> {
    match text_field(values, "last_auth_method"@) {
        Err(e) => Err(e),
        Ok(None) => Ok(None),
        Ok(Some(t)) => match StoredAuthMethod::named(t) {
            Some(method) => Ok(Some(method)),
            None => Err(CodecError::Host(HostProblem::UnknownAuthMethod)),
        },
    }
}

pub open spec fn host_keys() -> Seq<Seq<char>> {
    seq![
        "alias"@,
        "address"@,
        "port"@,
        "user"@,
        "identity_file"@,
        "groups"@,
        "tags"@,
        "note"@,
        "host_key_policy"@,
        "jump_chain"@,
        "last_connected_unix"@,
        "connection_count"@,
        "last_auth_method"@,
    ]
}

pub open spec fn chain_keys() -> Seq<Seq<char>> {
    seq!["name"@]
}

pub open spec fn named_hop_keys() -> Seq<Seq<char>> {
    seq!["chain"@, "index"@, "kind"@, "name"@]
}

pub open spec fn inline_hop_keys() -> Seq<Seq<char>> {
    seq![
        "chain"@,
        "index"@,
        "kind"@,
        "alias"@,
        "host"@,
        "port"@,
        "user"@,
        "identity_file"@,
        "host_key_policy"@,
    ]
}

/// Every key of the table is one of `keys`.
pub open spec fn only_keys(values: Seq<(Seq<char>, ValueView)>, keys: Seq<Seq<char>>) -> bool {
    forall|i: int| 0 <= i < values.len() ==> keys.contains(#[trigger] values[i].0)
}

/// The host record of a host table.
pub open spec fn host_of(values: Seq<(Seq<char>, ValueView)>, line: usize) -> Result<
    HostRecordView,
    CodecError,
> {
    let alias = required_field(values, "alias"@, line);
    let address = required_field(values, "address"@, line);
    let user = required_field(values, "user"@, line);
    let port = port_field(values, line);
    let identity_file = text_field(values, "identity_file"@);
    let groups = texts_field(values, "groups"@);
    let tags = texts_field(values, "tags"@);
    let note = text_field(values, "note"@);
    let host_key_policy = policy_field(values);
    let jump_chain = text_field(values, "jump_chain"@);
    let last_connected_unix = integer_field(values, "last_connected_unix"@);
    let connection_count = integer_field(values, "connection_count"@);
    let last_auth_method = auth_field(values);
    if alias is Err {
        Err(alias->Err_0)
    } else if address is Err {
        Err(address->Err_0)
    } else if user is Err {
        Err(user->Err_0)
    } else if port is Err {
        Err(port->Err_0)
    } else if identity_file is Err {
        Err(identity_file->Err_0)
    } else if groups is Err {
        Err(groups->Err_0)
    } else if tags is Err {
        Err(tags->Err_0)
    } else if note is Err {
        Err(note->Err_0)
    } else if host_key_policy is Err {
        Err(host_key_policy->Err_0)
    } else if jump_chain is Err {
        Err(jump_chain->Err_0)
    } else if last_connected_unix is Err {
        Err(last_connected_unix->Err_0)
    } else if connection_count is Err {
        Err(connection_count->Err_0)
    } else if last_auth_method is Err {
        Err(last_auth_method->Err_0)
    } else if !only_keys(values, host_keys()) {
        Err(CodecError::UnknownKey { line })
    } else {
        let record = HostRecordView {
            alias: alias->Ok_0,
            address: address->Ok_0,
            port: port->Ok_0,
            user: user->Ok_0,
            identity_file: identity_file->Ok_0,
            groups: groups->Ok_0,
            tags: tags->Ok_0,
            note: note->Ok_0,
            host_key_policy: host_key_policy->Ok_0,
            jump_chain: jump_chain->Ok_0,
            stats: HostStats {
                last_connected_unix: last_connected_unix->Ok_0,
                connection_count: match connection_count->Ok_0 {
                    Some(n) => n,
                    None => 0,
                },
                last_auth_method: last_auth_method->Ok_0,
            },
        };
        match record.fault() {
            Some(f) => Err(CodecError::Host(f.problem)),
            None => Ok(record),
        }
    }
}

/// The name of a chain table.
pub open spec fn chain_of(values: Seq<(Seq<char>, ValueView)>, line: usize) -> Result<
    Seq<char>,
    CodecError,
> {
    let name = required_field(values, "name"@, line);
    if name is Err {
        Err(name->Err_0)
    } else if !only_keys(values, chain_keys()) {
        Err(CodecError::UnknownKey { line })
    } else {
        Ok(name->Ok_0)
    }
}

/// The inline jump of a hop table.
pub open spec fn inline_of(values: Seq<(Seq<char>, ValueView)>, line: usize) -> Result<
    InlineJumpView,
    CodecError,
> {
    let alias = required_field(values, "alias"@, line);
    let host = required_field(values, "host"@, line);
    let user = required_field(values, "user"@, line);
    let port = port_field(values, line);
    let identity_file = text_field(values, "identity_file"@);
    let host_key_policy = policy_field(values);
    if alias is Err {
        Err(alias->Err_0)
    } else if host is Err {
        Err(host->Err_0)
    } else if user is Err {
        Err(user->Err_0)
    } else if port is Err {
        Err(port->Err_0)
    } else if identity_file is Err {
        Err(identity_file->Err_0)
    } else if host_key_policy is Err {
        Err(host_key_policy->Err_0)
    } else {
        Ok(
            InlineJumpView {
                alias: alias->Ok_0,
                host: host->Ok_0,
                port: port->Ok_0,
                user: user->Ok_0,
                identity_file: identity_file->Ok_0,
                host_key_policy: host_key_policy->Ok_0,
            },
        )
    }
}

/// The hop of a hop table, by the kind it gives.
pub open spec fn hop_of_kind(
    kind: Seq<char>,
    values: Seq<(Seq<char>, ValueView)>,
    line: usize,
) -> Result<JumpHopView, CodecError> {
    if kind == "host"@ {
        match required_field(values, "name"@, line) {
            Ok(name) => Ok(JumpHopView::Host(name)),
            Err(e) => Err(e),
        }
    } else if kind == "openssh"@ {
        match required_field(values, "name"@, line) {
            Ok(name) => Ok(JumpHopView::OpenSshAlias(name)),
            Err(e) => Err(e),
        }
    } else if kind == "inline"@ {
        match inline_of(values, line) {
            Ok(jump) => Ok(JumpHopView::Inline(jump)),
            Err(e) => Err(e),
        }
    } else {
        Err(CodecError::HopKind { line })
    }
}

pub open spec fn hop_keys(hop: JumpHopView) -> Seq<Seq<char>> {
    if hop is Inline {
        inline_hop_keys()
    } else {
        named_hop_keys()
    }
}

/// Chain, index and hop of a hop table.
pub open spec fn hop_of(values: Seq<(Seq<char>, ValueView)>, line: usize) -> Result<
    (Seq<char>, usize, JumpHopView),
    CodecError,
> {
    let chain = required_field(values, "chain"@, line);
    let index = integer_field(values, "index"@);
    let kind = required_field(values, "kind"@, line);
    if chain is Err {
        Err(chain->Err_0)
    } else if index is Err {
        Err(index->Err_0)
    } else if index->Ok_0 is None {
        Err(CodecError::HopIndexMissing)
    } else if index->Ok_0->0 > usize::MAX {
        Err(CodecError::HopIndexRange)
    } else if kind is Err {
        Err(kind->Err_0)
    } else {
        match hop_of_kind(kind->Ok_0, values, line) {
            Err(e) => Err(e),
            Ok(hop) => if !only_keys(values, hop_keys(hop)) {
                Err(CodecError::UnknownKey { line })
            } else {
                match hop.fault() {
                    Some(f) => Err(CodecError::Host(f.problem)),
                    None => Ok((chain->Ok_0, index->Ok_0->0 as usize, hop)),
                }
            },
        }
    }
}

/// The library as far as its tables have been taken in.
#[verifier::ext_equal]
pub struct BuildView {
    pub hosts: Seq<(Seq<char>, HostRecordView)>,
    pub chains: Seq<(Seq<char>, JumpChainView)>,
    pub hops: Seq<(Seq<char>, Seq<(usize, JumpHopView)>)>,
}

/// The hops collected for a chain so far.
pub open spec fn collected(
    hops: Seq<(Seq<char>, Seq<(usize, JumpHopView)>)>,
    chain: Seq<char>,
) -> Seq<(usize, JumpHopView)> {
    match crate::text_map::lookup(hops, chain) {
        Some(list) => list,
        None => Seq::empty(),
    }
}

pub open spec fn take_table(b: BuildView, t: TableView) -> Result<BuildView, CodecError> {
    match t.kind {
        TableKind::Host => match host_of(t.values, t.line) {
            Err(e) => Err(e),
            Ok(record) => if crate::text_map::has_key(b.hosts, record.alias) {
                Err(CodecError::DuplicateHost)
            } else {
                Ok(BuildView { hosts: crate::text_map::put(b.hosts, record.alias, record), ..b })
            },
        },
        TableKind::Chain => match chain_of(t.values, t.line) {
            Err(e) => Err(e),
            Ok(name) => if crate::text_map::has_key(b.chains, name) {
                Err(CodecError::DuplicateChain)
            } else {
                Ok(
                    BuildView {
                        chains: crate::text_map::put(
                            b.chains,
                            name,
                            JumpChainView { name, hops: Seq::empty() },
                        ),
                        ..b
                    },
                )
            },
        },
        TableKind::Hop => match hop_of(t.values, t.line) {
            Err(e) => Err(e),
            Ok((chain, index, hop)) => Ok(
                BuildView {
                    hops: crate::text_map::put(
                        b.hops,
                        chain,
                        collected(b.hops, chain).push((index, hop)),
                    ),
                    ..b
                },
            ),
        },
    }
}

pub open spec fn take_tables(b: BuildView, tables: Seq<TableView>, i: int) -> Result<
    BuildView,
    CodecError,
>
    decreases tables.len() - i,
{
    if i < 0 || i >= tables.len() {
        Ok(b)
    } else {
        match take_table(b, tables[i]) {
            Err(e) => Err(e),
            Ok(next) => take_tables(next, tables, i + 1),
        }
    }
}

/// Place of the hop with this index among the collected ones.
pub open spec fn index_place(list: Seq<(usize, JumpHopView)>, index: int) -> int
    decreases list.len(),
{
    if list.len() == 0 || list[0].0 == index {
        0
    } else {
        1 + index_place(list.drop_first(), index)
    }
}

/// The indices of the hops are 0 up to their number, each once.
pub open spec fn contiguous(list: Seq<(usize, JumpHopView)>) -> bool {
    forall|i: int| 0 <= i < list.len() ==> #[trigger] index_place(list, i) < list.len()
}

/// The hops in the order of their indices.
pub open spec fn in_order(list: Seq<(usize, JumpHopView)>) -> Seq<JumpHopView> {
    Seq::new(list.len(), |i: int| list[index_place(list, i)].1)
}

/// The chains with the hops collected for them, from the chain at `i` on.
pub open spec fn attach(
    chains: Seq<(Seq<char>, JumpChainView)>,
    hops: Seq<(Seq<char>, Seq<(usize, JumpHopView)>)>,
    i: int,
) -> Result<Seq<(Seq<char>, JumpChainView)>, CodecError>
    decreases hops.len() - i,
{
    if i < 0 || i >= hops.len() {
        Ok(chains)
    } else {
        match crate::text_map::lookup(chains, hops[i].0) {
            None => Err(CodecError::HopChainMissing),
            Some(chain) => if !contiguous(hops[i].1) {
                Err(CodecError::HopIndices)
            } else {
                attach(
                    crate::text_map::put(
                        chains,
                        hops[i].0,
                        JumpChainView { name: chain.name, hops: in_order(hops[i].1) },
                    ),
                    hops,
                    i + 1,
                )
            },
        }
    }
}

/// The library whose tables were read.
pub open spec fn build(tables: Seq<TableView>) -> Result<HostDatabaseView, CodecError> {
    let empty = BuildView { hosts: Seq::empty(), chains: Seq::empty(), hops: Seq::empty() };
    match take_tables(empty, tables, 0) {
        Err(e) => Err(e),
        Ok(b) => match attach(b.chains, b.hops, 0) {
            Err(e) => Err(e),
            Ok(chains) => {
                let database = HostDatabaseView {
                    version: DATABASE_VERSION,
                    hosts: b.hosts,
                    chains,
                };
                match database.fault() {
                    Some(f) => Err(CodecError::Host(f.problem)),
                    None => Ok(database),
                }
            },
        },
    }
}

/// The root table holds this version and nothing else.
pub open spec fn root_fault(root: Seq<(Seq<char>, ValueView)>) -> Option<CodecError> {
    match integer_field(root, "version"@) {
        Err(e) => Some(e),
        Ok(None) => Some(CodecError::MissingVersion),
        Ok(Some(n)) => if n != DATABASE_VERSION {
            Some(CodecError::UnsupportedVersion)
        } else if !only_keys(root, seq!["version"@]) {
            Some(CodecError::UnknownKey { line: 0 })
        } else {
            None
        },
    }
}

/// The host library that a text stands for.
pub open spec fn decoded(input: Seq<char>) -> Result<HostDatabaseView, CodecError> {
    let start = ScanView { root: Seq::empty(), tables: Seq::empty(), current: None };
    if crate::text::utf8_len(input) > MAX_DATABASE_BYTES {
        Err(CodecError::TooLarge)
    } else {
        match scan(start, crate::text::lines(input), 0) {
            Err(e) => Err(e),
            Ok(st) => match root_fault(st.root) {
                Some(e) => Err(e),
                None => build(st.all_tables()),
            },
        }
    }
}

/// How a character stands inside a quoted string.
pub open spec fn escaped(c: char) -> Seq<char> {
    if c == '"' {
        seq!['\\', '"']
    } else if c == '\\' {
        seq!['\\', '\\']
    } else if c == '\n' {
        seq!['\\', 'n']
    } else if c == '\r' {
        seq!['\\', 'r']
    } else if c == '\t' {
        seq!['\\', 't']
    } else {
        seq![c]
    }
}

pub open spec fn escape(s: Seq<char>) -> Seq<char>
    decreases s.len(),
{
    if s.len() == 0 {
        Seq::empty()
    } else {
        escape(s.drop_last()) + escaped(s.last())
    }
}

pub open spec fn quoted(s: Seq<char>) -> Seq<char> {
    seq!['"'] + escape(s) + seq!['"']
}

pub open spec fn quoted_list(values: Seq<Seq<char>>) -> Seq<char>
    decreases values.len(),
{
    if values.len() == 0 {
        Seq::empty()
    } else if values.len() == 1 {
        quoted(values[0])
    } else {
        quoted_list(values.drop_last()) + seq![',', ' '] + quoted(values.last())
    }
}

pub open spec fn value_text(v: ValueView) -> Seq<char> {
    match v {
        ValueView::Text(t) => quoted(t),
        ValueView::Integer(n) => crate::text::decimal(n as nat),
        ValueView::Texts(values) => seq!['['] + quoted_list(values) + seq![']'],
    }
}

pub open spec fn field_line(key: Seq<char>, value: ValueView) -> Seq<char> {
    key + seq![' ', '=', ' '] + value_text(value)
}

/// The lines of the fields that have a value.
pub open spec fn field_lines(fields: Seq<(Seq<char>, Option<ValueView>)>) -> Seq<Seq<char>>
    decreases fields.len(),
{
    if fields.len() == 0 {
        Seq::empty()
    } else {
        let before = field_lines(fields.drop_last());
        match fields.last().1 {
            Some(value) => before.push(field_line(fields.last().0, value)),
            None => before,
        }
    }
}

pub open spec fn optional_text(value: Option<Seq<char>>) -> Option<ValueView> {
    match value {
        Some(t) => Some(ValueView::Text(t)),
        None => None,
    }
}

pub open spec fn host_fields(r: HostRecordView) -> Seq<(Seq<char>, Option<ValueView>)> {
    seq![
        ("alias"@, Some(ValueView::Text(r.alias))),
        ("address"@, Some(ValueView::Text(r.address))),
        ("port"@, Some(ValueView::Integer(r.port as u64))),
        ("user"@, Some(ValueView::Text(r.user))),
        ("identity_file"@, optional_text(r.identity_file)),
        ("groups"@, Some(ValueView::Texts(r.groups))),
        ("tags"@, Some(ValueView::Texts(r.tags))),
        ("note"@, optional_text(r.note)),
        ("host_key_policy"@, Some(ValueView::Text(r.host_key_policy.name()))),
        ("jump_chain"@, optional_text(r.jump_chain)),
        (
            "last_connected_unix"@,
            match r.stats.last_connected_unix {
                Some(n) => Some(ValueView::Integer(n)),
                None => None,
            },
        ),
        ("connection_count"@, Some(ValueView::Integer(r.stats.connection_count))),
        (
            "last_auth_method"@,
            match r.stats.last_auth_method {
                Some(m) => Some(ValueView::Text(m.name())),
                None => None,
            },
        ),
    ]
}

pub open spec fn chain_fields(name: Seq<char>) -> Seq<(Seq<char>, Option<ValueView>)> {
    seq![("name"@, Some(ValueView::Text(name)))]
}

pub open spec fn hop_fields(chain: Seq<char>, index: int, hop: JumpHopView) -> Seq<
    (Seq<char>, Option<ValueView>),
> {
    match hop {
        JumpHopView::Host(alias) => seq![
            ("chain"@, Some(ValueView::Text(chain))),
            ("index"@, Some(ValueView::Integer(index as u64))),
            ("kind"@, Some(ValueView::Text("host"@))),
            ("name"@, Some(ValueView::Text(alias))),
        ],
        JumpHopView::OpenSshAlias(alias) => seq![
            ("chain"@, Some(ValueView::Text(chain))),
            ("index"@, Some(ValueView::Integer(index as u64))),
            ("kind"@, Some(ValueView::Text("openssh"@))),
            ("name"@, Some(ValueView::Text(alias))),
        ],
        JumpHopView::Inline(jump) => seq![
            ("chain"@, Some(ValueView::Text(chain))),
            ("index"@, Some(ValueView::Integer(index as u64))),
            ("kind"@, Some(ValueView::Text("inline"@))),
            ("alias"@, Some(ValueView::Text(jump.alias))),
            ("host"@, Some(ValueView::Text(jump.host))),
            ("port"@, Some(ValueView::Integer(jump.port as u64))),
            ("user"@, Some(ValueView::Text(jump.user))),
            ("identity_file"@, optional_text(jump.identity_file)),
            ("host_key_policy"@, Some(ValueView::Text(jump.host_key_policy.name()))),
        ],
    }
}

pub open spec fn header_line(kind: TableKind) -> Seq<char> {
    match kind {
        TableKind::Host => "[[host]]"@,
        TableKind::Chain => "[[chain]]"@,
        TableKind::Hop => "[[hop]]"@,
    }
}

/// An empty line, the header, and the fields of a table.
pub open spec fn table_lines(
    kind: TableKind,
    fields: Seq<(Seq<char>, Option<ValueView>)>,
) -> Seq<Seq<char>> {
    seq![Seq::empty(), header_line(kind)] + field_lines(fields)
}

/// The lines of the first `n` hosts.
pub open spec fn hosts_lines(hosts: Seq<(Seq<char>, HostRecordView)>, n: int) -> Seq<Seq<char>>
    decreases n,
{
    if n <= 0 {
        Seq::empty()
    } else {
        hosts_lines(hosts, n - 1) + table_lines(TableKind::Host, host_fields(hosts[n - 1].1))
    }
}

/// The lines of the first `n` hops of a chain.
pub open spec fn hops_lines(chain: JumpChainView, n: int) -> Seq<Seq<char>>
    decreases n,
{
    if n <= 0 {
        Seq::empty()
    } else {
        hops_lines(chain, n - 1) + table_lines(
            TableKind::Hop,
            hop_fields(chain.name, n - 1, chain.hops[n - 1]),
        )
    }
}

pub open spec fn chain_lines(chain: JumpChainView) -> Seq<Seq<char>> {
    table_lines(TableKind::Chain, chain_fields(chain.name)) + hops_lines(
        chain,
        chain.hops.len() as int,
    )
}

/// The lines of the first `n` chains.
pub open spec fn chains_lines(chains: Seq<(Seq<char>, JumpChainView)>, n: int) -> Seq<Seq<char>>
    decreases n,
{
    if n <= 0 {
        Seq::empty()
    } else {
        chains_lines(chains, n - 1) + chain_lines(chains[n - 1].1)
    }
}

pub open spec fn preamble_lines(version: u32) -> Seq<Seq<char>> {
    seq![
        "# Kaduox-SSH host library. Secrets are intentionally not stored here."@,
        field_line("version"@, ValueView::Integer(version as u64)),
    ]
}

pub open spec fn database_lines(d: HostDatabaseView) -> Seq<Seq<char>> {
    preamble_lines(d.version) + hosts_lines(d.hosts, d.hosts.len() as int) + chains_lines(
        d.chains,
        d.chains.len() as int,
    )
}

/// The lines, each with its line end.
pub open spec fn unlines(all: Seq<Seq<char>>) -> Seq<char>
    decreases all.len(),
{
    if all.len() == 0 {
        Seq::empty()
    } else {
        unlines(all.drop_last()) + all.last() + seq!['\n']
    }
}

/// The text form of a library.
pub open spec fn encoded(d: HostDatabaseView) -> Seq<char> {
    unlines(database_lines(d))
}

fn quote_next(q: Quote, c: char) -> (r: Quote)
    ensures
        r == quote_step(q, c),
{
    match q {
        Quote::Plain => if c == '"' {
            Quote::Quoted
        } else {
            Quote::Plain
        },
        Quote::Quoted => if c == '\\' {
            Quote::Escaped
        } else if c == '"' {
            Quote::Plain
        } else {
            Quote::Quoted
        },
        Quote::Escaped => Quote::Quoted,
    }
}

pub proof fn lemma_unquoted_position(s: Seq<char>, stop: char, q: Quote)
    ensures
        0 <= unquoted_position(s, stop, q) <= s.len(),
    decreases s.len(),
{
    if s.len() > 0 && !(q is Plain && s[0] == stop) {
        lemma_unquoted_position(s.drop_first(), stop, quote_step(q, s[0]));
    }
}

/// First `stop` outside quotes from `from` on, and where the reader stands there.
fn find_unquoted(chars: &[char], from: usize, stop: char) -> (r: (usize, Quote))
    requires
        from <= chars@.len(),
    ensures
        from <= r.0 <= chars@.len(),
        r.0 == from + unquoted_position(chars@.skip(from as int), stop, Quote::Plain),
        r.0 == chars@.len() ==> r.1 == quote_after(chars@.skip(from as int), Quote::Plain),
{
    let mut i: usize = from;
    let mut q = Quote::Plain;
    while i < chars.len() && !(q == Quote::Plain && chars[i] == stop)
        invariant
            from <= i <= chars@.len(),
            from + unquoted_position(chars@.skip(from as int), stop, Quote::Plain) == i
                + unquoted_position(chars@.skip(i as int), stop, q),
            quote_after(chars@.skip(from as int), Quote::Plain) == quote_after(
                chars@.skip(i as int),
                q,
            ),
        decreases chars@.len() - i,
    {
        assert(chars@.skip(i as int).drop_first() =~= chars@.skip(i + 1));
        q = quote_next(q, chars[i]);
        i += 1;
    }
    (i, q)
}

fn without_comment(line: &str) -> (r: Option<String>)
    ensures
        match r {
            Some(kept) => strip_comment(line@) == Some(kept@),
            None => strip_comment(line@) is None,
        },
{
    let chars = chars_of(line);
    let (p, q) = find_unquoted(chars.as_slice(), 0, '#');
    assert(line@.skip(0) =~= line@);
    if p < chars.len() {
        let kept = text_between(chars.as_slice(), 0, p);
        assert(kept@ =~= line@.take(p as int));
        Some(kept)
    } else if q == Quote::Plain {
        Some(line.to_owned())
    } else {
        None
    }
}

fn read_string(value: &str) -> (r: Result<String, ValueProblem>)
    ensures
        match r {
            Ok(text) => parse_string(value@) == Ok::<Seq<char>, ValueProblem>(text@),
            Err(e) => parse_string(value@) == Err::<Seq<char>, ValueProblem>(e),
        },
{
    let chars = chars_of(value);
    let n = chars.len();
    if n < 2 || chars[n - 1] != '"' {
        return Err(ValueProblem::UnterminatedString);
    }
    if chars[0] != '"' {
        return Err(ValueProblem::NotAString);
    }
    let ghost inner = value@.subrange(1, value@.len() - 1);
    let mut out = String::new();
    let mut i: usize = 1;
    assert(inner.skip(0) =~= inner);
    while i < n - 1
        invariant
            chars@ == value@,
            n == chars@.len(),
            n >= 2,
            inner == value@.subrange(1, value@.len() - 1),
            1 <= i <= n - 1,
            parse_string(value@) == unescape(Seq::empty(), inner),
            unescape(Seq::empty(), inner) == unescape(out@, inner.skip(i - 1)),
        decreases n - i,
    {
        let c = chars[i];
        let ghost rest = inner.skip(i - 1);
        assert(rest[0] == c);
        if c != '\\' {
            if crate::text::control(c) {
                return Err(ValueProblem::ControlCharacter);
            }
            out.push(c);
            assert(rest.drop_first() =~= inner.skip(i as int));
            i += 1;
        } else if i + 1 >= n - 1 {
            return Err(ValueProblem::TrailingEscape);
        } else {
            let e = chars[i + 1];
            assert(rest[1] == e);
            let plain = if e == '"' {
                '"'
            } else if e == '\\' {
                '\\'
            } else if e == 'n' {
                '\n'
            } else if e == 'r' {
                '\r'
            } else if e == 't' {
                '\t'
            } else {
                return Err(ValueProblem::UnknownEscape);
            };
            out.push(plain);
            assert(rest.skip(2) =~= inner.skip(i + 1));
            i += 2;
        }
    }
    assert(inner.skip(i - 1) =~= Seq::<char>::empty());
    Ok(out)
}

fn read_array(value: &str) -> (r: Result<Vec<String>, ValueProblem>)
    ensures
        match r {
            Ok(texts) => parse_array(value@) == Ok::<Seq<Seq<char>>, ValueProblem>(
                crate::text::views(texts@),
            ),
            Err(e) => parse_array(value@) == Err::<Seq<Seq<char>>, ValueProblem>(e),
        },
{
    let chars = chars_of(value);
    let n = chars.len();
    if n < 2 || chars[n - 1] != ']' {
        return Err(ValueProblem::UnterminatedArray);
    }
    let body = text_between(chars.as_slice(), 1, n - 1);
    let inner = trimmed(body.as_str());
    let items = chars_of(inner.as_str());
    let mut out: Vec<String> = Vec::new();
    if items.len() == 0 {
        assert(crate::text::views(out@) =~= Seq::<Seq<char>>::empty());
        return Ok(out);
    }
    let mut start: usize = 0;
    assert(inner@.skip(0) =~= inner@);
    assert(crate::text::views(out@) =~= Seq::<Seq<char>>::empty());
    loop
        invariant
            items@ == inner@,
            start <= items@.len(),
            parse_array(value@) == array_items(Seq::empty(), inner@),
            array_items(Seq::empty(), inner@) == array_items(
                crate::text::views(out@),
                inner@.skip(start as int),
            ),
        decreases items@.len() - start,
    {
        let ghost rest = inner@.skip(start as int);
        let (p, q) = find_unquoted(items.as_slice(), start, ',');
        if p < items.len() {
            let part = text_between(items.as_slice(), start, p);
            assert(part@ =~= rest.take(p - start));
            let item = read_string(trimmed(part.as_str()).as_str())?;
            let ghost before = out@;
            out.push(item);
            proof {
                crate::text::lemma_views_push(before, item);
                assert(rest.skip(p - start + 1) =~= inner@.skip(p + 1));
            }
            start = p + 1;
        } else {
            if q != Quote::Plain {
                return Err(ValueProblem::UnterminatedArrayString);
            }
            let part = text_between(items.as_slice(), start, p);
            assert(part@ =~= rest);
            let item = read_string(trimmed(part.as_str()).as_str())?;
            let ghost before = out@;
            out.push(item);
            proof {
                crate::text::lemma_views_push(before, item);
            }
            return Ok(out);
        }
    }
}

fn read_value(value: &str) -> (r: Result<Value, ValueProblem>)
    ensures
        match r {
            Ok(v) => parse_value(value@) == Ok::<ValueView, ValueProblem>(v@),
            Err(e) => parse_value(value@) == Err::<ValueView, ValueProblem>(e),
        },
{
    let chars = chars_of(value);
    if chars.len() > 0 && chars[0] == '"' {
        return Ok(Value::Text(read_string(value)?));
    }
    if chars.len() > 0 && chars[0] == '[' {
        return Ok(Value::Texts(read_array(value)?));
    }
    let mut i: usize = 0;
    while i < chars.len()
        invariant
            chars@ == value@,
            i <= chars@.len(),
            !(value@.len() > 0 && (value@[0] == '"' || value@[0] == '[')),
            forall|k: int| 0 <= k < i ==> crate::text::is_ascii_digit(#[trigger] value@[k]),
        decreases chars@.len() - i,
    {
        if !crate::text::ascii_digit(chars[i]) {
            assert(!crate::text::is_ascii_digit(value@[i as int]));
            return Err(ValueProblem::UnsupportedValue);
        }
        i += 1;
    }
    match crate::text::parse_number(value, u64::MAX) {
        Some(n) => Ok(Value::Integer(n)),
        None => Err(ValueProblem::IntegerRange),
    }
}

fn key_text(key: &str) -> (r: bool)
    ensures
        r == is_key(key@),
{
    let chars = chars_of(key);
    let mut i: usize = 0;
    while i < chars.len()
        invariant
            chars@ == key@,
            i <= chars@.len(),
            forall|k: int| 0 <= k < i ==> is_key_char(#[trigger] key@[k]),
        decreases chars@.len() - i,
    {
        if !(crate::text::ascii_alphanumeric(chars[i]) || chars[i] == '_') {
            assert(!is_key_char(key@[i as int]));
            return false;
        }
        i += 1;
    }
    chars.len() > 0
}

fn read_assignment(line: &str) -> (r: Result<(String, Value), ValueProblem>)
    ensures
        match r {
            Ok((key, v)) => parse_assignment(line@) == Ok::<
                (Seq<char>, ValueView),
                ValueProblem,
            >((key@, v@)),
            Err(e) => parse_assignment(line@) == Err::<(Seq<char>, ValueView), ValueProblem>(e),
        },
{
    let chars = chars_of(line);
    let (p, _q) = find_unquoted(chars.as_slice(), 0, '=');
    assert(line@.skip(0) =~= line@);
    if p == chars.len() {
        return Err(ValueProblem::MissingEquals);
    }
    let head = text_between(chars.as_slice(), 0, p);
    assert(head@ =~= line@.take(p as int));
    let key = trimmed(head.as_str());
    if !key_text(key.as_str()) {
        return Err(ValueProblem::BadKey);
    }
    let tail = text_between(chars.as_slice(), p + 1, chars.len());
    assert(tail@ =~= line@.skip(p + 1));
    let value = trimmed(tail.as_str());
    if value.as_str().is_empty() {
        return Err(ValueProblem::NoValue);
    }
    let parsed = read_value(value.as_str())?;
    Ok((key, parsed))
}

fn read_header(line: &str) -> (r: Result<Option<TableKind>, CodecError>)
    ensures
        r == parse_header(line@),
{
    let chars = chars_of(line);
    if chars.len() == 0 || chars[0] != '[' {
        Ok(None)
    } else if same_text(line, "[[host]]") {
        Ok(Some(TableKind::Host))
    } else if same_text(line, "[[chain]]") {
        Ok(Some(TableKind::Chain))
    } else if same_text(line, "[[hop]]") {
        Ok(Some(TableKind::Hop))
    } else {
        Err(CodecError::Header)
    }
}

/// The reader's state between two lines.
struct Scan {
    root: TextMap<Value>,
    tables: Vec<Table>,
    current: Option<Table>,
}

impl View for Scan {
    type V = ScanView;

    closed spec fn view(&self) -> ScanView {
        ScanView {
            root: fields_view(self.root),
            tables: table_views(self.tables@),
            current: current_view(self.current),
        }
    }
}

proof fn lemma_table_views_push(tables: Seq<Table>, t: Table)
    ensures
        table_views(tables.push(t)) == table_views(tables).push(t@),
{
    assert(table_views(tables.push(t)) =~= table_views(tables).push(t@));
}

fn put_field(values: &mut TextMap<Value>, key: String, value: Value, line: usize) -> (r: Result<
    (),
    CodecError,
>)
    ensures
        crate::text_map::has_key(fields_view(*old(values)), key@) ==> r == Err::<(), CodecError>(
            CodecError::DuplicateKey { line },
        ) && *final(values) == *old(values),
        !crate::text_map::has_key(fields_view(*old(values)), key@) ==> r is Ok && fields_view(
            *final(values),
        ) == crate::text_map::put(fields_view(*old(values)), key@, value@),
{
    values.recall_order();
    proof {
        crate::text_map::lemma_map_entries(values.entries(), value_view(), key@);
    }
    if values.contains_key(key.as_str()) {
        return Err(CodecError::DuplicateKey { line });
    }
    values.insert(key, value);
    Ok(())
}

fn read_line(st: Scan, raw: &str, line_no: usize) -> (r: Result<Scan, CodecError>)
    ensures
        match r {
            Ok(next) => scan_line(st@, raw@, line_no) == Ok::<ScanView, CodecError>(next@),
            Err(e) => scan_line(st@, raw@, line_no) == Err::<ScanView, CodecError>(e),
        },
{
    let kept = match without_comment(raw) {
        Some(kept) => kept,
        None => {
            return Err(CodecError::Comment { line: line_no });
        },
    };
    let line = trimmed(kept.as_str());
    if line.as_str().is_empty() {
        return Ok(st);
    }
    let Scan { root: mut root, tables: mut tables, current } = st;
    match read_header(line.as_str())? {
        Some(kind) => {
            if let Some(table) = current {
                proof {
                    lemma_table_views_push(tables@, table);
                }
                tables.push(table);
            }
            let fresh = Table { kind, line: line_no, values: TextMap::new() };
            assert(fresh@.values =~= Seq::<(Seq<char>, ValueView)>::empty());
            Ok(Scan { root, tables, current: Some(fresh) })
        },
        None => {
            let (key, value) = match read_assignment(line.as_str()) {
                Ok(pair) => pair,
                Err(problem) => {
                    return Err(CodecError::Assignment { line: line_no, problem });
                },
            };
            match current {
                Some(table) => {
                    let Table { kind: kind, line: opened, values: mut values } = table;
                    put_field(&mut values, key, value, line_no)?;
                    Ok(Scan { root, tables, current: Some(Table { kind, line: opened, values }) })
                },
                None => {
                    put_field(&mut root, key, value, line_no)?;
                    Ok(Scan { root, tables, current: None })
                },
            }
        },
    }
}

fn field<'a>(values: &'a TextMap<Value>, key: &str) -> (r: Option<&'a Value>)
    ensures
        match r {
            Some(v) => crate::text_map::lookup(fields_view(*values), key@) == Some(v@),
            None => crate::text_map::lookup(fields_view(*values), key@) is None,
        },
{
    values.recall_order();
    proof {
        crate::text_map::lemma_map_entries(values.entries(), value_view(), key@);
    }
    values.get(key)
}

/// The text field as an owned value.
fn read_text_field(values: &TextMap<Value>, key: &str) -> (r: Result<Option<String>, CodecError>)
    ensures
        match r {
            Ok(t) => text_field(fields_view(*values), key@) == Ok::<Option<Seq<char>>, CodecError>(
                crate::model::option_view(t),
            ),
            Err(e) => text_field(fields_view(*values), key@) == Err::<Option<Seq<char>>, CodecError>(
                e,
            ),
        },
{
    match field(values, key) {
        None => Ok(None),
        Some(Value::Text(t)) => Ok(Some(t.clone())),
        Some(_) => Err(CodecError::FieldType),
    }
}

fn read_integer_field(values: &TextMap<Value>, key: &str) -> (r: Result<Option<u64>, CodecError>)
    ensures
        r == integer_field(fields_view(*values), key@),
{
    match field(values, key) {
        None => Ok(None),
        Some(Value::Integer(n)) => Ok(Some(*n)),
        Some(_) => Err(CodecError::FieldType),
    }
}

fn read_texts_field(values: &TextMap<Value>, key: &str) -> (r: Result<Vec<String>, CodecError>)
    ensures
        match r {
            Ok(v) => texts_field(fields_view(*values), key@) == Ok::<Seq<Seq<char>>, CodecError>(
                crate::text::views(v@),
            ),
            Err(e) => texts_field(fields_view(*values), key@) == Err::<Seq<Seq<char>>, CodecError>(
                e,
            ),
        },
{
    match field(values, key) {
        None => {
            let none: Vec<String> = Vec::new();
            assert(crate::text::views(none@) =~= Seq::<Seq<char>>::empty());
            Ok(none)
        },
        Some(Value::Texts(v)) => Ok(crate::model::copy_texts(v)),
        Some(_) => Err(CodecError::FieldType),
    }
}

fn read_required_field(values: &TextMap<Value>, key: &str, line: usize) -> (r: Result<
    String,
    CodecError,
>)
    ensures
        match r {
            Ok(t) => required_field(fields_view(*values), key@, line) == Ok::<
                Seq<char>,
                CodecError,
            >(t@),
            Err(e) => required_field(fields_view(*values), key@, line) == Err::<
                Seq<char>,
                CodecError,
            >(e),
        },
{
    match read_text_field(values, key)? {
        Some(t) => Ok(t),
        None => Err(CodecError::MissingField { line }),
    }
}

fn read_port_field(values: &TextMap<Value>, line: usize) -> (r: Result<u16, CodecError>)
    ensures
        r == port_field(fields_view(*values), line),
{
    match read_integer_field(values, "port")? {
        None => Ok(22),
        Some(n) => if 0 < n && n <= 65535 {
            Ok(n as u16)
        } else {
            Err(CodecError::Port { line })
        },
    }
}

fn read_policy_field(values: &TextMap<Value>) -> (r: Result<StoredHostKeyPolicy, CodecError>)
    ensures
        r == policy_field(fields_view(*values)),
{
    match read_text_field(values, "host_key_policy")? {
        None => Ok(StoredHostKeyPolicy::AcceptNew),
        Some(t) => match StoredHostKeyPolicy::parse(t.as_str()) {
            Ok(policy) => Ok(policy),
            Err(e) => Err(CodecError::Host(e.problem)),
        },
    }
}

fn read_auth_field(values: &TextMap<Value>) -> (r: Result<Option<StoredAuthMethod>, CodecError>)
    ensures
        r == auth_field(fields_view(*values)),
{
    match read_text_field(values, "last_auth_method")? {
        None => Ok(None),
        Some(t) => match StoredAuthMethod::parse(t.as_str()) {
            Ok(method) => Ok(Some(method)),
            Err(e) => Err(CodecError::Host(e.problem)),
        },
    }
}

pub open spec fn literal_views(keys: Seq<&str>) -> Seq<Seq<char>> {
    keys.map_values(|k: &str| k@)
}

fn holds_only(values: &TextMap<Value>, keys: &Vec<&str>) -> (r: bool)
    ensures
        r == only_keys(fields_view(*values), literal_views(keys@)),
{
    let ghost view = fields_view(*values);
    let ghost names = literal_views(keys@);
    let count = values.len();
    let mut i: usize = 0;
    while i < count
        invariant
            count == values.entries().len(),
            view == fields_view(*values),
            names == literal_views(keys@),
            i <= count,
            forall|k: int| 0 <= k < i ==> names.contains(#[trigger] view[k].0),
        decreases count - i,
    {
        let key = values.key_at(i);
        assert(view[i as int].0 == key@);
        let mut found = false;
        let mut k: usize = 0;
        while k < keys.len()
            invariant
                names == literal_views(keys@),
                k <= keys@.len(),
                found ==> names.contains(key@),
                !found ==> forall|j: int| 0 <= j < k ==> names[j] != key@,
            decreases keys@.len() - k,
        {
            assert(names[k as int] == keys@[k as int]@);
            if same_text(keys[k], key.as_str()) {
                found = true;
            }
            k += 1;
        }
        if !found {
            assert(!names.contains(view[i as int].0));
            return false;
        }
        i += 1;
    }
    true
}

fn read_host(values: &TextMap<Value>, line: usize) -> (r: Result<HostRecord, CodecError>)
    ensures
        match r {
            Ok(record) => host_of(fields_view(*values), line) == Ok::<HostRecordView, CodecError>(
                record@,
            ),
            Err(e) => host_of(fields_view(*values), line) == Err::<HostRecordView, CodecError>(e),
        },
{
    let alias = read_required_field(values, "alias", line)?;
    let address = read_required_field(values, "address", line)?;
    let user = read_required_field(values, "user", line)?;
    let port = read_port_field(values, line)?;
    let identity_file = read_text_field(values, "identity_file")?;
    let groups = read_texts_field(values, "groups")?;
    let tags = read_texts_field(values, "tags")?;
    let note = read_text_field(values, "note")?;
    let host_key_policy = read_policy_field(values)?;
    let jump_chain = read_text_field(values, "jump_chain")?;
    let last_connected_unix = read_integer_field(values, "last_connected_unix")?;
    let connection_count: u64 = match read_integer_field(values, "connection_count")? {
        Some(n) => n,
        None => 0,
    };
    let last_auth_method = read_auth_field(values)?;
    let keys: Vec<&str> = vec![
        "alias",
        "address",
        "port",
        "user",
        "identity_file",
        "groups",
        "tags",
        "note",
        "host_key_policy",
        "jump_chain",
        "last_connected_unix",
        "connection_count",
        "last_auth_method",
    ];
    assert(literal_views(keys@) =~= host_keys());
    if !holds_only(values, &keys) {
        return Err(CodecError::UnknownKey { line });
    }
    let record = HostRecord {
        alias,
        address,
        port,
        user,
        identity_file,
        groups,
        tags,
        note,
        host_key_policy,
        jump_chain,
        stats: HostStats { last_connected_unix, connection_count, last_auth_method },
    };
    match record.validate() {
        Ok(()) => Ok(record),
        Err(e) => Err(CodecError::Host(e.problem)),
    }
}

fn read_chain(values: &TextMap<Value>, line: usize) -> (r: Result<String, CodecError>)
    ensures
        match r {
            Ok(name) => chain_of(fields_view(*values), line) == Ok::<Seq<char>, CodecError>(name@),
            Err(e) => chain_of(fields_view(*values), line) == Err::<Seq<char>, CodecError>(e),
        },
{
    let name = read_required_field(values, "name", line)?;
    let keys: Vec<&str> = vec!["name"];
    assert(literal_views(keys@) =~= chain_keys());
    if !holds_only(values, &keys) {
        return Err(CodecError::UnknownKey { line });
    }
    Ok(name)
}

fn read_inline(values: &TextMap<Value>, line: usize) -> (r: Result<InlineJump, CodecError>)
    ensures
        match r {
            Ok(jump) => inline_of(fields_view(*values), line) == Ok::<InlineJumpView, CodecError>(
                jump@,
            ),
            Err(e) => inline_of(fields_view(*values), line) == Err::<InlineJumpView, CodecError>(e),
        },
{
    let alias = read_required_field(values, "alias", line)?;
    let host = read_required_field(values, "host", line)?;
    let user = read_required_field(values, "user", line)?;
    let port = read_port_field(values, line)?;
    let identity_file = read_text_field(values, "identity_file")?;
    let host_key_policy = read_policy_field(values)?;
    Ok(InlineJump { alias, host, port, user, identity_file, host_key_policy })
}

fn read_hop_of_kind(kind: &str, values: &TextMap<Value>, line: usize) -> (r: Result<
    JumpHop,
    CodecError,
>)
    ensures
        match r {
            Ok(hop) => hop_of_kind(kind@, fields_view(*values), line) == Ok::<
                JumpHopView,
                CodecError,
            >(hop@),
            Err(e) => hop_of_kind(kind@, fields_view(*values), line) == Err::<
                JumpHopView,
                CodecError,
            >(e),
        },
{
    if same_text(kind, "host") {
        Ok(JumpHop::Host(read_required_field(values, "name", line)?))
    } else if same_text(kind, "openssh") {
        Ok(JumpHop::OpenSshAlias(read_required_field(values, "name", line)?))
    } else if same_text(kind, "inline") {
        Ok(JumpHop::Inline(read_inline(values, line)?))
    } else {
        Err(CodecError::HopKind { line })
    }
}

fn read_hop(values: &TextMap<Value>, line: usize) -> (r: Result<
    (String, usize, JumpHop),
    CodecError,
>)
    ensures
        match r {
            Ok((chain, index, hop)) => hop_of(fields_view(*values), line) == Ok::<
                (Seq<char>, usize, JumpHopView),
                CodecError,
            >((chain@, index, hop@)),
            Err(e) => hop_of(fields_view(*values), line) == Err::<
                (Seq<char>, usize, JumpHopView),
                CodecError,
            >(e),
        },
{
    let chain = read_required_field(values, "chain", line)?;
    let index: u64 = match read_integer_field(values, "index")? {
        Some(n) => n,
        None => {
            return Err(CodecError::HopIndexMissing);
        },
    };
    if index > usize::MAX as u64 {
        return Err(CodecError::HopIndexRange);
    }
    let kind = read_required_field(values, "kind", line)?;
    let hop = read_hop_of_kind(kind.as_str(), values, line)?;
    let keys: Vec<&str> = match &hop {
        JumpHop::Inline(_) => {
            let keys = vec![
                "chain",
                "index",
                "kind",
                "alias",
                "host",
                "port",
                "user",
                "identity_file",
                "host_key_policy",
            ];
            assert(literal_views(keys@) =~= inline_hop_keys());
            keys
        },
        _ => {
            let keys = vec!["chain", "index", "kind", "name"];
            assert(literal_views(keys@) =~= named_hop_keys());
            keys
        },
    };
    if !holds_only(values, &keys) {
        return Err(CodecError::UnknownKey { line });
    }
    match hop.validate() {
        Ok(()) => Ok((chain, index as usize, hop)),
        Err(e) => Err(CodecError::Host(e.problem)),
    }
}

/// The library as far as its tables have been taken in.
struct Build {
    hosts: TextMap<HostRecord>,
    chains: TextMap<JumpChain>,
    hops: TextMap<Vec<(usize, JumpHop)>>,
}

pub open spec fn indexed_views(list: Seq<(usize, JumpHop)>) -> Seq<(usize, JumpHopView)> {
    list.map_values(|item: (usize, JumpHop)| (item.0, item.1@))
}

pub open spec fn list_view() -> spec_fn(Vec<(usize, JumpHop)>) -> Seq<(usize, JumpHopView)> {
    |list: Vec<(usize, JumpHop)>| indexed_views(list@)
}

impl View for Build {
    type V = BuildView;

    closed spec fn view(&self) -> BuildView {
        BuildView {
            hosts: crate::text_map::map_entries(self.hosts.entries(), crate::model::record_view()),
            chains: crate::text_map::map_entries(self.chains.entries(), crate::model::chain_view()),
            hops: crate::text_map::map_entries(self.hops.entries(), list_view()),
        }
    }
}

fn read_table(b: Build, t: &Table) -> (r: Result<Build, CodecError>)
    ensures
        match r {
            Ok(next) => take_table(b@, t@) == Ok::<BuildView, CodecError>(next@),
            Err(e) => take_table(b@, t@) == Err::<BuildView, CodecError>(e),
        },
{
    let Build { hosts: mut hosts, chains: mut chains, hops: mut hops } = b;
    hosts.recall_order();
    chains.recall_order();
    hops.recall_order();
    match t.kind {
        TableKind::Host => {
            let record = read_host(&t.values, t.line)?;
            proof {
                crate::text_map::lemma_map_entries(
                    hosts.entries(),
                    crate::model::record_view(),
                    record.alias@,
                );
            }
            if hosts.contains_key(record.alias.as_str()) {
                return Err(CodecError::DuplicateHost);
            }
            hosts.insert(record.alias.clone(), record);
            Ok(Build { hosts, chains, hops })
        },
        TableKind::Chain => {
            let name = read_chain(&t.values, t.line)?;
            proof {
                crate::text_map::lemma_map_entries(
                    chains.entries(),
                    crate::model::chain_view(),
                    name@,
                );
            }
            if chains.contains_key(name.as_str()) {
                return Err(CodecError::DuplicateChain);
            }
            let chain = JumpChain { name: name.clone(), hops: Vec::new() };
            assert(chain@.hops =~= Seq::<JumpHopView>::empty());
            chains.insert(name, chain);
            Ok(Build { hosts, chains, hops })
        },
        TableKind::Hop => {
            let (chain, index, hop) = read_hop(&t.values, t.line)?;
            let ghost before = hops.entries();
            proof {
                crate::text_map::lemma_map_entries(before, list_view(), chain@);
                crate::text_map::lemma_without(before, chain@);
                crate::text_map::lemma_put(before, chain@, hops.entries()[0].1);
            }
            let prior = hops.remove(chain.as_str());
            let mut list: Vec<(usize, JumpHop)> = match prior {
                Some(list) => list,
                None => Vec::new(),
            };
            let ghost listed = list@;
            list.push((index, hop));
            proof {
                assert(indexed_views(list@) =~= collected(b@.hops, chain@).push((index, hop@)));
                lemma_replace(before, chain@, list);
                assert(list_view()(list) == indexed_views(list@));
            }
            hops.insert(chain, list);
            Ok(Build { hosts, chains, hops })
        },
    }
}

/// Taking an entry out and storing under its key again is storing under it.
proof fn lemma_replace<V>(entries: Seq<(Seq<char>, V)>, key: Seq<char>, value: V)
    requires
        crate::text_map::sorted(entries),
    ensures
        crate::text_map::put(crate::text_map::without(entries, key), key, value)
            == crate::text_map::put(entries, key, value),
{
    crate::text_map::lemma_rank(entries, key);
    crate::text_map::lemma_without(entries, key);
    let p = crate::text_map::rank(entries, key);
    let rest = crate::text_map::without(entries, key);
    if p < entries.len() && entries[p].0 == key {
        assert forall|i: int| 0 <= i < p implies crate::text::text_less(
            #[trigger] rest[i].0,
            key,
        ) by {
            assert(rest[i] == entries[i]);
        }
        if p < rest.len() {
            assert(rest[p] == entries[p + 1]);
            assert(!crate::text::text_less(entries[p + 1].0, key));
        }
        crate::text_map::lemma_rank_is(rest, key, p);
        if p < rest.len() {
            assert(crate::text::text_less(entries[p].0, entries[p + 1].0));
            crate::text::lemma_text_less_irreflexive(key);
        }
        assert(rest.insert(p, (key, value)) =~= entries.update(p, (key, value)));
    }
}

fn place_of(list: &Vec<(usize, JumpHop)>, index: usize) -> (r: usize)
    ensures
        r == index_place(indexed_views(list@), index as int),
        r <= list@.len(),
{
    let ghost all = indexed_views(list@);
    let mut i: usize = 0;
    assert(all.skip(0) =~= all);
    while i < list.len() && list[i].0 != index
        invariant
            all == indexed_views(list@),
            i <= list@.len(),
            index_place(all, index as int) == i + index_place(all.skip(i as int), index as int),
        decreases list@.len() - i,
    {
        assert(all[i as int].0 == list@[i as int].0);
        assert(all.skip(i as int).drop_first() =~= all.skip(i + 1));
        i += 1;
    }
    proof {
        if i < list@.len() {
            assert(all.skip(i as int)[0].0 == list@[i as int].0);
        }
    }
    i
}

fn ordered_hops(list: &Vec<(usize, JumpHop)>) -> (r: Option<Vec<JumpHop>>)
    ensures
        match r {
            Some(hops) => contiguous(indexed_views(list@)) && crate::model::hop_views(hops@)
                == in_order(indexed_views(list@)),
            None => !contiguous(indexed_views(list@)),
        },
{
    let ghost all = indexed_views(list@);
    let mut out: Vec<JumpHop> = Vec::new();
    let mut i: usize = 0;
    while i < list.len()
        invariant
            all == indexed_views(list@),
            i <= list@.len(),
            out@.len() == i,
            forall|k: int| 0 <= k < i ==> #[trigger] index_place(all, k) < all.len(),
            forall|k: int|
                0 <= k < i ==> (#[trigger] out@[k])@ == all[index_place(all, k)].1,
        decreases list@.len() - i,
    {
        let p = place_of(list, i);
        if p == list.len() {
            assert(!(index_place(all, i as int) < all.len()));
            return None;
        }
        assert(all[p as int].1 == list@[p as int].1@);
        out.push(list[p].1.copy());
        i += 1;
    }
    assert(crate::model::hop_views(out@) =~= in_order(all));
    Some(out)
}

fn attach_hops(chains: TextMap<JumpChain>, hops: &TextMap<Vec<(usize, JumpHop)>>) -> (r: Result<
    TextMap<JumpChain>,
    CodecError,
>)
    ensures
        match r {
            Ok(done) => attach(
                crate::text_map::map_entries(chains.entries(), crate::model::chain_view()),
                crate::text_map::map_entries(hops.entries(), list_view()),
                0,
            ) == Ok::<Seq<(Seq<char>, JumpChainView)>, CodecError>(
                crate::text_map::map_entries(done.entries(), crate::model::chain_view()),
            ),
            Err(e) => attach(
                crate::text_map::map_entries(chains.entries(), crate::model::chain_view()),
                crate::text_map::map_entries(hops.entries(), list_view()),
                0,
            ) == Err::<Seq<(Seq<char>, JumpChainView)>, CodecError>(e),
        },
{
    let ghost first = crate::text_map::map_entries(chains.entries(), crate::model::chain_view());
    let ghost lists = crate::text_map::map_entries(hops.entries(), list_view());
    let mut done = chains;
    let count = hops.len();
    let mut i: usize = 0;
    while i < count
        invariant
            count == hops.entries().len(),
            first == crate::text_map::map_entries(chains.entries(), crate::model::chain_view()),
            lists == crate::text_map::map_entries(hops.entries(), list_view()),
            i <= count,
            attach(first, lists, 0) == attach(
                crate::text_map::map_entries(done.entries(), crate::model::chain_view()),
                lists,
                i as int,
            ),
        decreases count - i,
    {
        let name = hops.key_at(i);
        let list = hops.value_at(i);
        assert(lists[i as int].0 == name@);
        assert(lists[i as int].1 == indexed_views(list@));
        done.recall_order();
        proof {
            crate::text_map::lemma_map_entries(done.entries(), crate::model::chain_view(), name@);
        }
        let stored = match done.get(name.as_str()) {
            Some(chain) => chain.name.clone(),
            None => {
                return Err(CodecError::HopChainMissing);
            },
        };
        match ordered_hops(list) {
            None => {
                return Err(CodecError::HopIndices);
            },
            Some(ordered) => {
                let chain = JumpChain { name: stored, hops: ordered };
                assert(crate::model::chain_view()(chain) == chain@);
                done.insert(name.clone(), chain);
            },
        }
        i += 1;
    }
    Ok(done)
}

fn assemble(tables: &Vec<Table>) -> (r: Result<HostDatabase, CodecError>)
    ensures
        match r {
            Ok(d) => build(table_views(tables@)) == Ok::<HostDatabaseView, CodecError>(d@),
            Err(e) => build(table_views(tables@)) == Err::<HostDatabaseView, CodecError>(e),
        },
{
    let ghost views = table_views(tables@);
    let mut b = Build { hosts: TextMap::new(), chains: TextMap::new(), hops: TextMap::new() };
    assert(b@.hosts =~= Seq::<(Seq<char>, HostRecordView)>::empty());
    assert(b@.chains =~= Seq::<(Seq<char>, JumpChainView)>::empty());
    assert(b@.hops =~= Seq::<(Seq<char>, Seq<(usize, JumpHopView)>)>::empty());
    let ghost start = b@;
    let mut i: usize = 0;
    while i < tables.len()
        invariant
            views == table_views(tables@),
            i <= tables@.len(),
            start == (BuildView { hosts: Seq::empty(), chains: Seq::empty(), hops: Seq::empty() }),
            take_tables(start, views, 0) == take_tables(b@, views, i as int),
        decreases tables@.len() - i,
    {
        assert(views[i as int] == tables@[i as int]@);
        b = read_table(b, &tables[i])?;
        i += 1;
    }
    let Build { hosts, chains, hops } = b;
    let attached = attach_hops(chains, &hops)?;
    let database = HostDatabase { version: DATABASE_VERSION, hosts, chains: attached };
    match database.validate() {
        Ok(()) => Ok(database),
        Err(e) => Err(CodecError::Host(e.problem)),
    }
}

/// Reads a host library from its text form.
pub fn decode(input: &str) -> (r: Result<HostDatabase, CodecError>)
    ensures
        match r {
            Ok(d) => decoded(input@) == Ok::<HostDatabaseView, CodecError>(d@),
            Err(e) => decoded(input@) == Err::<HostDatabaseView, CodecError>(e),
        },
{
    if crate::text::byte_len(input) > MAX_DATABASE_BYTES {
        return Err(CodecError::TooLarge);
    }
    let all = lines_of(input);
    let ghost views = crate::text::lines(input@);
    let mut st = Scan { root: TextMap::new(), tables: Vec::new(), current: None };
    assert(st@.root =~= Seq::<(Seq<char>, ValueView)>::empty());
    assert(st@.tables =~= Seq::<TableView>::empty());
    let ghost start = st@;
    let mut i: usize = 0;
    while i < all.len()
        invariant
            views == crate::text::views(all@),
            views == crate::text::lines(input@),
            crate::text::utf8_len(input@) <= MAX_DATABASE_BYTES,
            i <= all@.len(),
            start == (ScanView { root: Seq::empty(), tables: Seq::empty(), current: None }),
            scan(start, views, 0) == scan(st@, views, i as int),
        decreases all@.len() - i,
    {
        assert(views[i as int] == all@[i as int]@);
        st = read_line(st, all[i].as_str(), i + 1)?;
        i += 1;
    }
    let Scan { root, tables: mut tables, current } = st;
    if let Some(table) = current {
        proof {
            lemma_table_views_push(tables@, table);
        }
        tables.push(table);
    }
    match read_integer_field(&root, "version")? {
        None => {
            return Err(CodecError::MissingVersion);
        },
        Some(n) => {
            if n != DATABASE_VERSION as u64 {
                return Err(CodecError::UnsupportedVersion);
            }
        },
    }
    let keys: Vec<&str> = vec!["version"];
    assert(literal_views(keys@) =~= seq!["version"@]);
    if !holds_only(&root, &keys) {
        return Err(CodecError::UnknownKey { line: 0 });
    }
    assemble(&tables)
}

fn write_escaped(out: &mut String, value: &str)
    ensures
        final(out)@ == old(out)@ + escape(value@),
{
    let chars = chars_of(value);
    let ghost before = out@;
    let mut i: usize = 0;
    assert(value@.take(0) =~= Seq::<char>::empty());
    while i < chars.len()
        invariant
            chars@ == value@,
            i <= chars@.len(),
            out@ =~= before + escape(value@.take(i as int)),
        decreases chars@.len() - i,
    {
        let c = chars[i];
        let ghost written = out@;
        if c == '"' {
            out.push('\\');
            out.push('"');
        } else if c == '\\' {
            out.push('\\');
            out.push('\\');
        } else if c == '\n' {
            out.push('\\');
            out.push('n');
        } else if c == '\r' {
            out.push('\\');
            out.push('r');
        } else if c == '\t' {
            out.push('\\');
            out.push('t');
        } else {
            out.push(c);
        }
        assert(out@ =~= written + escaped(c));
        assert(value@.take(i + 1).drop_last() =~= value@.take(i as int));
        i += 1;
    }
    assert(value@.take(value@.len() as int) =~= value@);
}

fn write_quoted(out: &mut String, value: &str)
    ensures
        final(out)@ == old(out)@ + quoted(value@),
{
    let ghost before = out@;
    out.push('"');
    write_escaped(out, value);
    out.push('"');
    assert(out@ =~= before + quoted(value@));
}

fn write_key(out: &mut String, key: &str)
    ensures
        final(out)@ == old(out)@ + key@ + seq![' ', '=', ' '],
{
    let ghost before = out@;
    out.append(key);
    out.push(' ');
    out.push('=');
    out.push(' ');
    assert(out@ =~= before + key@ + seq![' ', '=', ' ']);
}

/// A line that holds a text field.
fn write_string(out: &mut String, key: &str, value: &str)
    ensures
        final(out)@ == old(out)@ + field_line(key@, ValueView::Text(value@)) + seq!['\n'],
{
    let ghost before = out@;
    write_key(out, key);
    write_quoted(out, value);
    out.push('\n');
    assert(out@ =~= before + field_line(key@, ValueView::Text(value@)) + seq!['\n']);
}

/// A line that holds a number field.
fn write_number(out: &mut String, key: &str, value: u64)
    ensures
        final(out)@ == old(out)@ + field_line(key@, ValueView::Integer(value)) + seq!['\n'],
{
    let ghost before = out@;
    write_key(out, key);
    let text = decimal_text(value);
    out.append(text.as_str());
    out.push('\n');
    assert(out@ =~= before + field_line(key@, ValueView::Integer(value)) + seq!['\n']);
}

/// A line that holds a list of texts.
fn write_strings(out: &mut String, key: &str, values: &Vec<String>)
    ensures
        final(out)@ == old(out)@ + field_line(
            key@,
            ValueView::Texts(crate::text::views(values@)),
        ) + seq!['\n'],
{
    let ghost before = out@;
    let ghost all = crate::text::views(values@);
    write_key(out, key);
    out.push('[');
    let ghost opened = out@;
    let mut i: usize = 0;
    assert(all.take(0) =~= Seq::<Seq<char>>::empty());
    assert(opened + quoted_list(all.take(0)) =~= opened);
    while i < values.len()
        invariant
            all == crate::text::views(values@),
            i <= values@.len(),
            out@ == opened + quoted_list(all.take(i as int)),
        decreases values@.len() - i,
    {
        let ghost written = out@;
        if i != 0 {
            out.push(',');
            out.push(' ');
        }
        write_quoted(out, values[i].as_str());
        proof {
            assert(all[i as int] == values@[i as int]@);
            let longer = all.take(i + 1);
            assert(longer.drop_last() =~= all.take(i as int));
            if i == 0 {
                assert(longer.len() == 1);
                assert(out@ =~= opened + quoted_list(longer));
            } else {
                assert(out@ =~= opened + (quoted_list(all.take(i as int)) + seq![',', ' '] + quoted(
                    all[i as int],
                )));
            }
        }
        i += 1;
    }
    assert(all.take(all.len() as int) =~= all);
    out.push(']');
    out.push('\n');
    assert(out@ =~= before + field_line(key@, ValueView::Texts(all)) + seq!['\n']);
}

pub proof fn lemma_unlines_push(all: Seq<Seq<char>>, line: Seq<char>)
    ensures
        unlines(all.push(line)) == unlines(all) + line + seq!['\n'],
{
    assert(all.push(line).drop_last() =~= all);
}

pub proof fn lemma_unlines_add(a: Seq<Seq<char>>, b: Seq<Seq<char>>)
    ensures
        unlines(a + b) == unlines(a) + unlines(b),
    decreases b.len(),
{
    if b.len() == 0 {
        assert(a + b =~= a);
        assert(unlines(a) + unlines(b) =~= unlines(a));
    } else {
        lemma_unlines_add(a, b.drop_last());
        assert((a + b).drop_last() =~= a + b.drop_last());
        assert(unlines(a + b) =~= unlines(a) + unlines(b));
    }
}

/// Fields one at a time: what is written grows by the line of each.
proof fn lemma_field_lines_push(
    fields: Seq<(Seq<char>, Option<ValueView>)>,
    key: Seq<char>,
    value: Option<ValueView>,
)
    ensures
        field_lines(fields.push((key, value))) == match value {
            Some(v) => field_lines(fields).push(field_line(key, v)),
            None => field_lines(fields),
        },
{
    assert(fields.push((key, value)).drop_last() =~= fields);
}

fn write_header(out: &mut String, kind: TableKind)
    ensures
        final(out)@ == old(out)@ + unlines(table_lines(kind, Seq::empty())),
{
    let ghost before = out@;
    out.push('\n');
    match kind {
        TableKind::Host => out.append("[[host]]"),
        TableKind::Chain => out.append("[[chain]]"),
        TableKind::Hop => out.append("[[hop]]"),
    }
    out.push('\n');
    proof {
        let none = Seq::<(Seq<char>, Option<ValueView>)>::empty();
        let empty = Seq::<Seq<char>>::empty();
        lemma_unlines_push(empty, Seq::empty());
        lemma_unlines_push(empty.push(Seq::empty()), header_line(kind));
        assert(table_lines(kind, none) =~= empty.push(Seq::empty()).push(header_line(kind)));
        assert(out@ =~= before + unlines(table_lines(kind, none)));
    }
}

/// The text of a table whose first fields have been written.
spec fn table_text(
    before: Seq<char>,
    kind: TableKind,
    fields: Seq<(Seq<char>, Option<ValueView>)>,
) -> Seq<char> {
    before + unlines(table_lines(kind, fields))
}

proof fn lemma_table_text_push(
    before: Seq<char>,
    kind: TableKind,
    fields: Seq<(Seq<char>, Option<ValueView>)>,
    key: Seq<char>,
    value: Option<ValueView>,
)
    ensures
        table_text(before, kind, fields.push((key, value))) == match value {
            Some(v) => table_text(before, kind, fields) + field_line(key, v) + seq!['\n'],
            None => table_text(before, kind, fields),
        },
{
    lemma_field_lines_push(fields, key, value);
    match value {
        Some(v) => {
            let line = field_line(key, v);
            let head = seq![Seq::empty(), header_line(kind)];
            assert(head + field_lines(fields).push(line) =~= (head + field_lines(fields)).push(line));
            lemma_unlines_push(table_lines(kind, fields), line);
            assert(table_text(before, kind, fields.push((key, value))) =~= table_text(
                before,
                kind,
                fields,
            ) + line + seq!['\n']);
        },
        None => {},
    }
}

fn write_host(out: &mut String, host: &HostRecord)
    ensures
        final(out)@ == old(out)@ + unlines(
            table_lines(TableKind::Host, host_fields(host@)),
        ),
{
    let ghost before = out@;
    let ghost k = TableKind::Host;
    let ghost all = host_fields(host@);
    let ghost f0 = all.take(0);
    write_header(out, TableKind::Host);
    assert(f0 =~= Seq::<(Seq<char>, Option<ValueView>)>::empty());
    assert(out@ == table_text(before, k, all.take(0)));
    write_string(out, "alias", host.alias.as_str());
    proof {
        assert(all.take(1) =~= all.take(0).push(all[0]));
        lemma_table_text_push(before, k, all.take(0), all[0].0, all[0].1);
    }
    write_string(out, "address", host.address.as_str());
    proof {
        assert(all.take(2) =~= all.take(1).push(all[1]));
        lemma_table_text_push(before, k, all.take(1), all[1].0, all[1].1);
    }
    write_number(out, "port", host.port as u64);
    proof {
        assert(all.take(3) =~= all.take(2).push(all[2]));
        lemma_table_text_push(before, k, all.take(2), all[2].0, all[2].1);
    }
    write_string(out, "user", host.user.as_str());
    proof {
        assert(all.take(4) =~= all.take(3).push(all[3]));
        lemma_table_text_push(before, k, all.take(3), all[3].0, all[3].1);
    }
    if let Some(path) = &host.identity_file {
        write_string(out, "identity_file", path.as_str());
    }
    proof {
        assert(all.take(5) =~= all.take(4).push(all[4]));
        lemma_table_text_push(before, k, all.take(4), all[4].0, all[4].1);
    }
    assert(out@ == table_text(before, k, all.take(5)));
    write_strings(out, "groups", &host.groups);
    proof {
        assert(all.take(6) =~= all.take(5).push(all[5]));
        lemma_table_text_push(before, k, all.take(5), all[5].0, all[5].1);
    }
    write_strings(out, "tags", &host.tags);
    proof {
        assert(all.take(7) =~= all.take(6).push(all[6]));
        lemma_table_text_push(before, k, all.take(6), all[6].0, all[6].1);
    }
    if let Some(note) = &host.note {
        write_string(out, "note", note.as_str());
    }
    proof {
        assert(all.take(8) =~= all.take(7).push(all[7]));
        lemma_table_text_push(before, k, all.take(7), all[7].0, all[7].1);
    }
    assert(out@ == table_text(before, k, all.take(8)));
    write_string(out, "host_key_policy", host.host_key_policy.as_str());
    proof {
        assert(all.take(9) =~= all.take(8).push(all[8]));
        lemma_table_text_push(before, k, all.take(8), all[8].0, all[8].1);
    }
    if let Some(chain) = &host.jump_chain {
        write_string(out, "jump_chain", chain.as_str());
    }
    proof {
        assert(all.take(10) =~= all.take(9).push(all[9]));
        lemma_table_text_push(before, k, all.take(9), all[9].0, all[9].1);
    }
    assert(out@ == table_text(before, k, all.take(10)));
    if let Some(timestamp) = host.stats.last_connected_unix {
        write_number(out, "last_connected_unix", timestamp);
    }
    proof {
        assert(all.take(11) =~= all.take(10).push(all[10]));
        lemma_table_text_push(before, k, all.take(10), all[10].0, all[10].1);
    }
    assert(out@ == table_text(before, k, all.take(11)));
    write_number(out, "connection_count", host.stats.connection_count);
    proof {
        assert(all.take(12) =~= all.take(11).push(all[11]));
        lemma_table_text_push(before, k, all.take(11), all[11].0, all[11].1);
    }
    if let Some(method) = host.stats.last_auth_method {
        write_string(out, "last_auth_method", method.as_str());
    }
    proof {
        assert(all =~= all.take(12).push(all[12]));
        lemma_table_text_push(before, k, all.take(12), all[12].0, all[12].1);
    }
}

fn write_hop(out: &mut String, chain: &str, index: usize, hop: &JumpHop)
    requires
        index <= u64::MAX,
    ensures
        final(out)@ == old(out)@ + unlines(
            table_lines(TableKind::Hop, hop_fields(chain@, index as int, hop@)),
        ),
{
    let ghost before = out@;
    let ghost k = TableKind::Hop;
    let ghost all = hop_fields(chain@, index as int, hop@);
    write_header(out, TableKind::Hop);
    assert(all.take(0) =~= Seq::<(Seq<char>, Option<ValueView>)>::empty());
    assert(out@ == table_text(before, k, all.take(0)));
    write_string(out, "chain", chain);
    proof {
        assert(all.take(1) =~= all.take(0).push(all[0]));
        lemma_table_text_push(before, k, all.take(0), all[0].0, all[0].1);
    }
    write_number(out, "index", index as u64);
    proof {
        assert(all.take(2) =~= all.take(1).push(all[1]));
        lemma_table_text_push(before, k, all.take(1), all[1].0, all[1].1);
        assert(all.take(3) =~= all.take(2).push(all[2]));
        lemma_table_text_push(before, k, all.take(2), all[2].0, all[2].1);
        assert(all.take(4) =~= all.take(3).push(all[3]));
        lemma_table_text_push(before, k, all.take(3), all[3].0, all[3].1);
    }
    assert(out@ == table_text(before, k, all.take(2)));
    match hop {
        JumpHop::Host(alias) => {
            write_string(out, "kind", "host");
            write_string(out, "name", alias.as_str());
            assert(all =~= all.take(4));
        },
        JumpHop::OpenSshAlias(alias) => {
            write_string(out, "kind", "openssh");
            write_string(out, "name", alias.as_str());
            assert(all =~= all.take(4));
        },
        JumpHop::Inline(jump) => {
            write_string(out, "kind", "inline");
            write_string(out, "alias", jump.alias.as_str());
            assert(out@ == table_text(before, k, all.take(4)));
            write_string(out, "host", jump.host.as_str());
            proof {
                assert(all.take(5) =~= all.take(4).push(all[4]));
                lemma_table_text_push(before, k, all.take(4), all[4].0, all[4].1);
            }
            write_number(out, "port", jump.port as u64);
            proof {
                assert(all.take(6) =~= all.take(5).push(all[5]));
                lemma_table_text_push(before, k, all.take(5), all[5].0, all[5].1);
            }
            write_string(out, "user", jump.user.as_str());
            proof {
                assert(all.take(7) =~= all.take(6).push(all[6]));
                lemma_table_text_push(before, k, all.take(6), all[6].0, all[6].1);
            }
            if let Some(path) = &jump.identity_file {
                write_string(out, "identity_file", path.as_str());
            }
            proof {
                assert(all.take(8) =~= all.take(7).push(all[7]));
                lemma_table_text_push(before, k, all.take(7), all[7].0, all[7].1);
            }
            assert(out@ == table_text(before, k, all.take(8)));
            write_string(out, "host_key_policy", jump.host_key_policy.as_str());
            proof {
                assert(all =~= all.take(8).push(all[8]));
                lemma_table_text_push(before, k, all.take(8), all[8].0, all[8].1);
            }
        },
    }
}

fn write_chain(out: &mut String, chain: &JumpChain)
    ensures
        final(out)@ == old(out)@ + unlines(chain_lines(chain@)),
{
    let ghost before = out@;
    let ghost all = chain_fields(chain.name@);
    let ghost head = table_lines(TableKind::Chain, all);
    write_header(out, TableKind::Chain);
    write_string(out, "name", chain.name.as_str());
    proof {
        let none = Seq::<(Seq<char>, Option<ValueView>)>::empty();
        assert(all =~= none.push(all[0]));
        lemma_table_text_push(before, TableKind::Chain, none, all[0].0, all[0].1);
    }
    let ghost opened = out@;
    assert(opened == before + unlines(head));
    let mut i: usize = 0;
    assert(opened + unlines(hops_lines(chain@, 0)) =~= opened);
    while i < chain.hops.len()
        invariant
            i <= chain.hops@.len(),
            out@ == opened + unlines(hops_lines(chain@, i as int)),
        decreases chain.hops@.len() - i,
    {
        assert(chain@.hops[i as int] == chain.hops@[i as int]@);
        write_hop(out, chain.name.as_str(), i, &chain.hops[i]);
        proof {
            let block = table_lines(
                TableKind::Hop,
                hop_fields(chain@.name, i as int, chain@.hops[i as int]),
            );
            lemma_unlines_add(hops_lines(chain@, i as int), block);
            assert(out@ =~= opened + unlines(hops_lines(chain@, i + 1)));
        }
        i += 1;
    }
    proof {
        lemma_unlines_add(head, hops_lines(chain@, chain@.hops.len() as int));
        assert(out@ =~= before + unlines(chain_lines(chain@)));
    }
}

/// Writes a host library in its text form; an invalid one is refused.
pub fn encode(database: &HostDatabase) -> (r: Result<String, HostError>)
    ensures
        match r {
            Ok(text) => database@.valid() && text@ == encoded(database@),
            Err(e) => database@.fault() == Some(e@),
        },
{
    database.validate()?;
    let ghost d = database@;
    let mut out = String::new();
    out.append("# Kaduox-SSH host library. Secrets are intentionally not stored here.");
    out.push('\n');
    write_number(&mut out, "version", database.version as u64);
    let ghost head = preamble_lines(d.version);
    proof {
        let empty = Seq::<Seq<char>>::empty();
        lemma_unlines_push(empty, head[0]);
        lemma_unlines_push(empty.push(head[0]), head[1]);
        assert(head =~= empty.push(head[0]).push(head[1]));
        assert(out@ =~= unlines(head));
    }
    let host_count = database.hosts.len();
    let mut i: usize = 0;
    assert(unlines(head) + unlines(hosts_lines(d.hosts, 0)) =~= unlines(head));
    while i < host_count
        invariant
            d == database@,
            i <= host_count == database.hosts.entries().len(),
            out@ == unlines(head) + unlines(hosts_lines(d.hosts, i as int)),
        decreases host_count - i,
    {
        let host = database.hosts.value_at(i);
        assert(d.hosts[i as int].1 == host@);
        write_host(&mut out, host);
        proof {
            let block = table_lines(TableKind::Host, host_fields(host@));
            lemma_unlines_add(hosts_lines(d.hosts, i as int), block);
            assert(out@ =~= unlines(head) + unlines(hosts_lines(d.hosts, i + 1)));
        }
        i += 1;
    }
    let ghost upto = head + hosts_lines(d.hosts, d.hosts.len() as int);
    proof {
        lemma_unlines_add(head, hosts_lines(d.hosts, d.hosts.len() as int));
        assert(unlines(upto) + unlines(chains_lines(d.chains, 0)) =~= unlines(upto));
    }
    let chain_count = database.chains.len();
    let mut j: usize = 0;
    while j < chain_count
        invariant
            d == database@,
            j <= chain_count == database.chains.entries().len(),
            out@ == unlines(upto) + unlines(chains_lines(d.chains, j as int)),
        decreases chain_count - j,
    {
        let chain = database.chains.value_at(j);
        assert(d.chains[j as int].1 == chain@);
        write_chain(&mut out, chain);
        proof {
            lemma_unlines_add(chains_lines(d.chains, j as int), chain_lines(chain@));
            assert(out@ =~= unlines(upto) + unlines(chains_lines(d.chains, j + 1)));
        }
        j += 1;
    }
    proof {
        lemma_unlines_add(upto, chains_lines(d.chains, d.chains.len() as int));
    }
    Ok(out)
}

} // verus!
