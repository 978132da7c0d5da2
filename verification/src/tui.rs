use crate::monitor::{
    lemma_row_total_prefix, lemma_row_total_step, row_total, ForwardingStatus, Monitor, MonitorView,
    ServerEntry, ServerView,
};
use crate::text::decimal_string;
use crate::text::{decimal, is_numeral, lemma_decimal_denotes, numeral_value, push_decimal};
use vstd::prelude::*;

verus! {

/// A key as the interface tells keys apart.
#[derive(Debug, Clone, Copy, PartialEq, Eq, Structural)]
pub enum Key {
    Char(char),
    Esc,
    Up,
    Down,
    Other,
}

/// A key press: the key and whether Control was held.
#[derive(Debug, Clone, Copy, PartialEq, Eq, Structural)]
pub struct KeyPress {
    pub code: Key,
    pub ctrl: bool,
}

/// What a key press asks of the interface.
#[derive(Debug, Clone, Copy, PartialEq, Eq, Structural)]
pub enum KeyAction {
    Quit,
    Next,
    Previous,
    Ignore,
}

/// `q`, Esc and Control-C quit; Down and `j` move down; Up and `k` move up;
/// every other key is ignored.
pub open spec fn key_action(key: KeyPress) -> KeyAction {
    match key.code {
        Key::Char(c) => if c == 'q' {
            KeyAction::Quit
        } else if c == 'c' && key.ctrl {
            KeyAction::Quit
        } else if c == 'j' {
            KeyAction::Next
        } else if c == 'k' {
            KeyAction::Previous
        } else {
            KeyAction::Ignore
        },
        Key::Esc => KeyAction::Quit,
        Key::Down => KeyAction::Next,
        Key::Up => KeyAction::Previous,
        Key::Other => KeyAction::Ignore,
    }
}

/// The row selected after moving down among `count` rows: the next one, or
/// the first after the last (or after a row past the end); the first where
/// none was selected.
pub open spec fn next_selection(selected: Option<usize>, count: nat) -> Option<usize> {
    match selected {
        Some(i) => if i >= count - 1 {
            Some(0usize)
        } else {
            Some((i + 1) as usize)
        },
        None => Some(0usize),
    }
}

/// The row selected after moving up among `count` rows: the one before, or
/// the last after the first; the first where none was selected.
pub open spec fn previous_selection(selected: Option<usize>, count: nat) -> Option<usize> {
    match selected {
        Some(i) => if i == 0 {
            Some((count - 1) as usize)
        } else {
            Some((i - 1) as usize)
        },
        None => Some(0usize),
    }
}

/// Moving down is defined unless a row is selected and there are no rows.
pub open spec fn can_move_down(selected: Option<usize>, count: nat) -> bool {
    selected is None || count > 0
}

/// Moving up is defined unless the first row is selected and there are no rows.
pub open spec fn can_move_up(selected: Option<usize>, count: nat) -> bool {
    selected != Some(0usize) || count > 0
}

/// The selection after `n` moves down.
pub open spec fn next_iterated(selected: Option<usize>, count: nat, n: nat) -> Option<usize>
    decreases n,
{
    if n == 0 {
        selected
    } else {
        next_selection(next_iterated(selected, count, (n - 1) as nat), count)
    }
}

/// What the interface holds: whether it is to quit, and the selected row.
pub struct AppView {
    pub should_quit: bool,
    pub selected: Option<usize>,
}

/// The state of the terminal interface: whether it is to quit, and which
/// row of the status table is selected.
pub struct App {
    should_quit: bool,
    selected: Option<usize>,
}

impl View for App {
    type V = AppView;

    closed spec fn view(&self) -> AppView {
        AppView { should_quit: self.should_quit, selected: self.selected }
    }
}

/// The interface after moving down among `count` rows.
pub open spec fn moved_down(state: AppView, count: nat) -> AppView {
    AppView { should_quit: state.should_quit, selected: next_selection(state.selected, count) }
}

/// The interface after moving up among `count` rows.
pub open spec fn moved_up(state: AppView, count: nat) -> AppView {
    AppView { should_quit: state.should_quit, selected: previous_selection(state.selected, count) }
}

/// The interface after a key press in a table of `count` rows.
pub open spec fn key_outcome(state: AppView, key: KeyPress, count: nat) -> AppView {
    match key_action(key) {
        KeyAction::Quit => AppView { should_quit: true, selected: state.selected },
        KeyAction::Next => moved_down(state, count),
        KeyAction::Previous => moved_up(state, count),
        KeyAction::Ignore => state,
    }
}

/// A key that does not quit leaves the quit flag alone; Down and `j` do
/// what moving down does, Up and `k` what moving up does, whether or not
/// Control is held; `c` without Control and every key with no meaning
/// change nothing.
pub proof fn lemma_key_handling_is_navigation(state: AppView, key: KeyPress, count: nat)
    ensures
        key_action(key) != KeyAction::Quit ==> key_outcome(state, key, count).should_quit
            == state.should_quit,
        key.code == Key::Down || key.code == Key::Char('j') ==> key_outcome(state, key, count)
            == moved_down(state, count),
        key.code == Key::Up || key.code == Key::Char('k') ==> key_outcome(state, key, count)
            == moved_up(state, count),
        key.code == Key::Char('c') && !key.ctrl ==> key_outcome(state, key, count) == state,
        key.code == Key::Other ==> key_outcome(state, key, count) == state,
        key.code == Key::Esc || key.code == Key::Char('q') ==> key_outcome(state, key, count)
            == (AppView { should_quit: true, selected: state.selected }),
{
}

/// What a key press asks of the interface, as `key_action` says.
pub fn key_action_of(key: KeyPress) -> (a: KeyAction)
    ensures
        a == key_action(key),
{
    match key.code {
        Key::Char(c) => {
            if c == 'q' {
                KeyAction::Quit
            } else if c == 'c' && key.ctrl {
                KeyAction::Quit
            } else if c == 'j' {
                KeyAction::Next
            } else if c == 'k' {
                KeyAction::Previous
            } else {
                KeyAction::Ignore
            }
        },
        Key::Esc => KeyAction::Quit,
        Key::Down => KeyAction::Next,
        Key::Up => KeyAction::Previous,
        Key::Other => KeyAction::Ignore,
    }
}

impl App {
    /// A running interface with the first row selected.
    pub fn new() -> (app: App)
        ensures
            app@.should_quit == false,
            app@.selected == Some(0usize),
    {
        App { should_quit: false, selected: Some(0) }
    }

    /// Whether the interface is to quit.
    pub fn should_quit(&self) -> (r: bool)
        ensures
            r == self@.should_quit,
    {
        self.should_quit
    }

    /// The selected row, if any.
    pub fn selected(&self) -> (r: Option<usize>)
        ensures
            r == self@.selected,
    {
        self.selected
    }

    /// Acts on a key press: quits, moves the selection, or does nothing, as
    /// `key_action` says.
    pub fn handle_key(&mut self, key: KeyPress, monitor: &Monitor)
        requires
            monitor.rows_fit(),
            key_action(key) == KeyAction::Next ==> can_move_down(
                old(self)@.selected,
                monitor.spec_total_rows(),
            ),
            key_action(key) == KeyAction::Previous ==> can_move_up(
                old(self)@.selected,
                monitor.spec_total_rows(),
            ),
        ensures
            match key_action(key) {
                KeyAction::Quit => final(self)@ == AppView {
                    should_quit: true,
                    selected: old(self)@.selected,
                },
                KeyAction::Next => final(self)@ == AppView {
                    should_quit: old(self)@.should_quit,
                    selected: next_selection(old(self)@.selected, monitor.spec_total_rows()),
                },
                KeyAction::Previous => final(self)@ == AppView {
                    should_quit: old(self)@.should_quit,
                    selected: previous_selection(old(self)@.selected, monitor.spec_total_rows()),
                },
                KeyAction::Ignore => final(self)@ == old(self)@,
            },
            final(self)@ == key_outcome(old(self)@, key, monitor.spec_total_rows()),
    {
        match key_action_of(key) {
            KeyAction::Quit => {
                self.should_quit = true;
            },
            KeyAction::Next => {
                self.next(monitor);
            },
            KeyAction::Previous => {
                self.previous(monitor);
            },
            KeyAction::Ignore => {},
        }
    }

    /// The rows of the status table: one per server and one per forwarding.
    fn get_total_rows(&self, monitor: &Monitor) -> (n: usize)
        requires
            monitor.rows_fit(),
        ensures
            n == monitor.spec_total_rows(),
    {
        match monitor.row_count() {
            Some(n) => n,
            None => 0,
        }
    }

    /// Selects the next row, wrapping from the last to the first.
    pub fn next(&mut self, monitor: &Monitor)
        requires
            monitor.rows_fit(),
            can_move_down(old(self)@.selected, monitor.spec_total_rows()),
        ensures
            final(self)@.should_quit == old(self)@.should_quit,
            final(self)@.selected == next_selection(
                old(self)@.selected,
                monitor.spec_total_rows(),
            ),
            final(self)@ == moved_down(old(self)@, monitor.spec_total_rows()),
    {
        let count = self.get_total_rows(monitor);
        let i = match self.selected {
            Some(i) => {
                if i >= count - 1 {
                    0
                } else {
                    i + 1
                }
            },
            None => 0,
        };
        self.selected = Some(i);
    }

    /// Selects the previous row, wrapping from the first to the last.
    pub fn previous(&mut self, monitor: &Monitor)
        requires
            monitor.rows_fit(),
            can_move_up(old(self)@.selected, monitor.spec_total_rows()),
        ensures
            final(self)@.should_quit == old(self)@.should_quit,
            final(self)@.selected == previous_selection(
                old(self)@.selected,
                monitor.spec_total_rows(),
            ),
            final(self)@ == moved_up(old(self)@, monitor.spec_total_rows()),
    {
        let count = self.get_total_rows(monitor);
        let i = match self.selected {
            Some(i) => {
                if i == 0 {
                    count - 1
                } else {
                    i - 1
                }
            },
            None => 0,
        };
        self.selected = Some(i);
    }
}

/// Moving up undoes moving down, from any row of a non-empty table.
pub proof fn lemma_previous_undoes_next(i: usize, count: nat)
    requires
        0 < count <= usize::MAX,
        i < count,
    ensures
        previous_selection(next_selection(Some(i), count), count) == Some(i),
{
}

/// Moving down undoes moving up, from any row of a non-empty table.
pub proof fn lemma_next_undoes_previous(i: usize, count: nat)
    requires
        0 < count <= usize::MAX,
        i < count,
    ensures
        next_selection(previous_selection(Some(i), count), count) == Some(i),
{
}

/// In a non-empty table a selection that is within the table, or absent,
/// stays within the table when moved either way.
pub proof fn lemma_selection_stays_in_table(selected: Option<usize>, count: nat)
    requires
        0 < count <= usize::MAX,
        selected matches Some(i) ==> i < count,
    ensures
        next_selection(selected, count) matches Some(j) && j < count,
        previous_selection(selected, count) matches Some(j) && j < count,
{
}

/// `n` moves down from row `i` of a table of `count` rows land on row
/// `(i + n) % count`; so `count` moves down come back to the same row.
pub proof fn lemma_next_cycles(i: usize, count: nat, n: nat)
    requires
        0 < count <= usize::MAX,
        i < count,
    ensures
        next_iterated(Some(i), count, n) == Some(((i + n) % (count as int)) as usize),
        next_iterated(Some(i), count, count) == Some(i),
{
    lemma_next_iterated_mod(i, count, n);
    lemma_next_iterated_mod(i, count, count);
    assert((i + count) % (count as int) == i) by (nonlinear_arith)
        requires
            0 <= i < count,
    ;
}

proof fn lemma_next_iterated_mod(i: usize, count: nat, n: nat)
    requires
        0 < count <= usize::MAX,
        i < count,
    ensures
        next_iterated(Some(i), count, n) == Some(((i + n) % (count as int)) as usize),
    decreases n,
{
    if n == 0 {
        assert((i as int) % (count as int) == i) by (nonlinear_arith)
            requires
                0 <= i < count,
        ;
    } else {
        lemma_next_iterated_mod(i, count, (n - 1) as nat);
        let prev = (i + n - 1) % (count as int);
        lemma_mod_succ(i + n - 1, count as int);
        assert(next_iterated(Some(i), count, n) == next_selection(Some(prev as usize), count));
    }
}

proof fn lemma_mod_succ(a: int, m: int)
    requires
        a >= 0,
        m > 0,
    ensures
        0 <= a % m < m,
        (a + 1) % m == (if a % m == m - 1 { 0 } else { a % m + 1 }),
{
    vstd::arithmetic::div_mod::lemma_mod_pos_bound(a, m);
    vstd::arithmetic::div_mod::lemma_fundamental_div_mod(a, m);
    vstd::arithmetic::div_mod::lemma_fundamental_div_mod(a + 1, m);
    let q = a / m;
    let r = a % m;
    assert((q + 1) * m == m * q + m && q * m == m * q) by (nonlinear_arith);
    if r == m - 1 {
        vstd::arithmetic::div_mod::lemma_fundamental_div_mod_converse(a + 1, m, q + 1, 0);
    } else {
        vstd::arithmetic::div_mod::lemma_fundamental_div_mod_converse(a + 1, m, q, r + 1);
    }
}

/// The unit that a byte count is shown in.
#[derive(Debug, Clone, Copy, PartialEq, Eq, Structural)]
pub enum ByteScale {
    Bytes,
    Kilobytes,
    Megabytes,
    Gigabytes,
}

/// Bytes in a kilobyte.
pub const KB: u64 = 1024;

/// Bytes in a megabyte.
pub const MB: u64 = 1048576;

/// Bytes in a gigabyte.
pub const GB: u64 = 1073741824;

/// The largest unit of which `bytes` holds at least one.
pub open spec fn byte_scale_of(bytes: u64) -> ByteScale {
    if bytes >= GB {
        ByteScale::Gigabytes
    } else if bytes >= MB {
        ByteScale::Megabytes
    } else if bytes >= KB {
        ByteScale::Kilobytes
    } else {
        ByteScale::Bytes
    }
}

/// The number of bytes in a unit.
pub open spec fn scale_divisor(scale: ByteScale) -> u64 {
    match scale {
        ByteScale::Bytes => 1,
        ByteScale::Kilobytes => KB,
        ByteScale::Megabytes => MB,
        ByteScale::Gigabytes => GB,
    }
}

/// The name of a unit.
pub open spec fn scale_suffix(scale: ByteScale) -> Seq<char> {
    match scale {
        ByteScale::Bytes => "B"@,
        ByteScale::Kilobytes => "KB"@,
        ByteScale::Megabytes => "MB"@,
        ByteScale::Gigabytes => "GB"@,
    }
}

impl ByteScale {
    /// The unit that `bytes` is shown in.
    pub fn of(bytes: u64) -> (s: ByteScale)
        ensures
            s == byte_scale_of(bytes),
            scale_divisor(s) <= bytes || bytes == 0,
            s != ByteScale::Gigabytes ==> bytes < scale_divisor(s) * 1024,
    {
        if bytes >= GB {
            ByteScale::Gigabytes
        } else if bytes >= MB {
            ByteScale::Megabytes
        } else if bytes >= KB {
            ByteScale::Kilobytes
        } else {
            ByteScale::Bytes
        }
    }

    /// The number of bytes in this unit.
    pub fn divisor(&self) -> (d: u64)
        ensures
            d == scale_divisor(*self),
    {
        match self {
            ByteScale::Bytes => 1,
            ByteScale::Kilobytes => KB,
            ByteScale::Megabytes => MB,
            ByteScale::Gigabytes => GB,
        }
    }

    /// The name of this unit.
    pub fn suffix(&self) -> (s: &'static str)
        ensures
            s@ == scale_suffix(*self),
    {
        match self {
            ByteScale::Bytes => "B",
            ByteScale::Kilobytes => "KB",
            ByteScale::Megabytes => "MB",
            ByteScale::Gigabytes => "GB",
        }
    }
}

/// An uptime in its two largest parts: days and hours, hours and minutes,
/// minutes and seconds, or seconds alone. An hour here is every 24 whole
/// minutes, and a day every 24 such hours.
pub open spec fn duration_text(secs: nat) -> Seq<char> {
    let mins = secs / 60;
    let hours = mins / 24;
    let days = hours / 24;
    if days > 0 {
        decimal(days) + seq!['d'] + decimal(hours % 24) + seq!['h']
    } else if hours > 0 {
        decimal(hours) + seq!['h'] + decimal(mins % 60) + seq!['m']
    } else if mins > 0 {
        decimal(mins) + seq!['m'] + decimal(secs % 60) + seq!['s']
    } else {
        decimal(secs) + seq!['s']
    }
}

/// The text of an uptime of `secs` whole seconds.
pub fn format_duration(secs: u64) -> (r: String)
    ensures
        r@ == duration_text(secs as nat),
{
    let mins = secs / 60;
    let hours = mins / 24;
    let days = hours / 24;
    proof {
        reveal_strlit("d");
        reveal_strlit("h");
        reveal_strlit("m");
        reveal_strlit("s");
    }
    let mut r = String::new();
    if days > 0 {
        push_decimal(&mut r, days);
        r.append("d");
        push_decimal(&mut r, hours % 24);
        r.append("h");
    } else if hours > 0 {
        push_decimal(&mut r, hours);
        r.append("h");
        push_decimal(&mut r, mins % 60);
        r.append("m");
    } else if mins > 0 {
        push_decimal(&mut r, mins);
        r.append("m");
        push_decimal(&mut r, secs % 60);
        r.append("s");
    } else {
        push_decimal(&mut r, secs);
        r.append("s");
    }
    assert(r@ =~= duration_text(secs as nat));
    r
}

/// The heading row of a server in the status table.
pub open spec fn server_header_text(server: ServerView) -> Seq<char> {
    server.name + " | "@ + server.username + "@"@ + server.host + ":"@ + decimal(
        server.port as nat,
    ) + " | "@ + decimal(server.forwardings.len()) + " forwardings"@
}

/// The text of a server's heading row:
/// `name | user@host:port | N forwardings`.
pub fn server_header(server: &ServerEntry) -> (r: String)
    ensures
        r@ == server_header_text(server@),
{
    let mut r = server.name.clone();
    r.append(" | ");
    r.append(server.username.as_str());
    r.append("@");
    r.append(server.host.as_str());
    r.append(":");
    push_decimal(&mut r, server.port as u64);
    r.append(" | ");
    push_decimal(&mut r, server.forwardings.len() as u64);
    r.append(" forwardings");
    assert(r@ =~= server_header_text(server@));
    r
}

/// The label of a forwarding's state in the status column.
pub open spec fn status_text(status: ForwardingStatus) -> Seq<char> {
    match status {
        ForwardingStatus::Active => "  ● Active"@,
        ForwardingStatus::Error => "  ✗ Error"@,
        ForwardingStatus::Unknown => "  ? Unknown"@,
    }
}

/// The label of a forwarding's state.
pub fn status_label(status: ForwardingStatus) -> (r: &'static str)
    ensures
        r@ == status_text(status),
{
    match status {
        ForwardingStatus::Active => "  ● Active",
        ForwardingStatus::Error => "  ✗ Error",
        ForwardingStatus::Unknown => "  ? Unknown",
    }
}

/// The far end of a forwarding: `host:port`.
pub open spec fn far_end_text(host: Seq<char>, port: u16) -> Seq<char> {
    host + ":"@ + decimal(port as nat)
}

/// The far end of a forwarding: `host:port`.
pub fn remote_text(host: &str, port: u16) -> (r: String)
    ensures
        r@ == far_end_text(host@, port),
{
    let mut r = String::from_str(host);
    r.append(":");
    push_decimal(&mut r, port as u64);
    r
}

/// The process shown for a local port: the one known for it, or `-`.
pub open spec fn process_shown(m: MonitorView, port: u16) -> Seq<char> {
    if m.processes.contains_key(port) {
        m.processes[port]
    } else {
        "-"@
    }
}

/// The process shown for a local port: the one known for it, or `-`.
pub fn process_text(monitor: &Monitor, port: u16) -> (r: String)
    ensures
        r@ == process_shown(monitor@, port),
{
    match monitor.get_process_for_port(port) {
        Some(name) => name.clone(),
        None => String::from_str("-"),
    }
}

/// The texts of a forwarding's row: which server and forwarding it shows,
/// and its status, local port, far end and process columns.
pub struct ForwardingRow {
    pub server: usize,
    pub forwarding: usize,
    pub status: String,
    pub local_port: String,
    pub remote: String,
    pub process: String,
}

/// A row of the status table: a server's heading, or one of its forwardings.
pub enum TableRow {
    Server(String),
    Forwarding(ForwardingRow),
}

/// What a row of the status table shows, with its texts as character
/// sequences.
pub enum RowText {
    Server(Seq<char>),
    Forwarding {
        server: int,
        forwarding: int,
        status: Seq<char>,
        local_port: Seq<char>,
        remote: Seq<char>,
        process: Seq<char>,
    },
}

impl View for TableRow {
    type V = RowText;

    open spec fn view(&self) -> RowText {
        match self {
            TableRow::Server(text) => RowText::Server(text@),
            TableRow::Forwarding(row) => RowText::Forwarding {
                server: row.server as int,
                forwarding: row.forwarding as int,
                status: row.status@,
                local_port: row.local_port@,
                remote: row.remote@,
                process: row.process@,
            },
        }
    }
}

/// The row of forwarding `j` of server `i`.
pub open spec fn forwarding_row_text(m: MonitorView, i: int, j: int) -> RowText {
    let f = m.servers[i].forwardings[j];
    RowText::Forwarding {
        server: i,
        forwarding: j,
        status: status_text(f.status),
        local_port: decimal(f.local_port as nat),
        remote: far_end_text(f.remote_host, f.remote_port),
        process: process_shown(m, f.local_port),
    }
}

/// The rows of server `i`: its heading, then its forwardings in order.
pub open spec fn server_rows(m: MonitorView, i: int) -> Seq<RowText> {
    seq![RowText::Server(server_header_text(m.servers[i]))] + Seq::new(
        m.servers[i].forwardings.len(),
        |j: int| forwarding_row_text(m, i, j),
    )
}

/// The rows of the first `n` servers, in order.
pub open spec fn table_rows_upto(m: MonitorView, n: nat) -> Seq<RowText>
    decreases n,
{
    if n == 0 {
        Seq::empty()
    } else {
        table_rows_upto(m, (n - 1) as nat) + server_rows(m, n - 1)
    }
}

/// The rows of the status table: for each server in order, its heading and
/// then its forwardings.
pub open spec fn table_rows(m: MonitorView) -> Seq<RowText> {
    table_rows_upto(m, m.servers.len())
}

/// The table has one row per server and one per forwarding.
pub proof fn lemma_table_rows_count(m: MonitorView, n: nat)
    requires
        n <= m.servers.len(),
    ensures
        table_rows_upto(m, n).len() == row_total(m.servers.take(n as int)),
    decreases n,
{
    if n > 0 {
        lemma_table_rows_count(m, (n - 1) as nat);
        assert(m.servers.take(n as int).drop_last() =~= m.servers.take(n - 1));
    } else {
        assert(m.servers.take(0) =~= Seq::<ServerView>::empty());
    }
}

/// The rows of the status table, in order: each server's heading row, then
/// one row per forwarding of that server with its verified texts.
pub fn status_table(monitor: &Monitor) -> (rows: Vec<TableRow>)
    ensures
        rows@.map_values(|r: TableRow| r@) == table_rows(monitor@),
        rows.len() == monitor.spec_total_rows(),
{
    let ghost m = monitor@;
    let servers = monitor.iter_servers();
    let mut rows: Vec<TableRow> = Vec::new();
    let mut i: usize = 0;
    while i < servers.len()
        invariant
            i <= servers.len(),
            m == monitor@,
            servers@.map_values(|s: ServerEntry| s@) == m.servers,
            rows@.map_values(|r: TableRow| r@) == table_rows_upto(m, i as nat),
        decreases servers.len() - i,
    {
        let server = &servers[i];
        assert(server@ == m.servers[i as int]);
        let ghost done = table_rows_upto(m, i as nat);
        rows.push(TableRow::Server(server_header(server)));
        assert(rows@.map_values(|r: TableRow| r@) =~= done + server_rows(m, i as int).take(1));
        let mut j: usize = 0;
        while j < server.forwardings.len()
            invariant
                i < servers.len(),
                j <= server.forwardings.len(),
                m == monitor@,
                server@ == m.servers[i as int],
                done == table_rows_upto(m, i as nat),
                rows@.map_values(|r: TableRow| r@) == done + server_rows(m, i as int).take(
                    j + 1,
                ),
            decreases server.forwardings.len() - j,
        {
            let f = &server.forwardings[j];
            assert(f@ == m.servers[i as int].forwardings[j as int]);
            let row = ForwardingRow {
                server: i,
                forwarding: j,
                status: String::from_str(status_label(f.status)),
                local_port: decimal_string(f.local_port as u64),
                remote: remote_text(f.remote_host.as_str(), f.remote_port),
                process: process_text(monitor, f.local_port),
            };
            let ghost before = rows@.map_values(|r: TableRow| r@);
            let entry = TableRow::Forwarding(row);
            assert(entry@ == forwarding_row_text(m, i as int, j as int));
            rows.push(entry);
            assert(rows@.map_values(|r: TableRow| r@) =~= before.push(entry@));
            assert(server_rows(m, i as int)[j + 1] == forwarding_row_text(m, i as int, j as int));
            assert(rows@.map_values(|r: TableRow| r@) =~= done + server_rows(m, i as int).take(
                j + 2,
            ));
            j = j + 1;
        }
        assert(server_rows(m, i as int).take(j + 1) =~= server_rows(m, i as int));
        i = i + 1;
    }
    proof {
        lemma_table_rows_count(m, m.servers.len());
        assert(m.servers.take(m.servers.len() as int) =~= m.servers);
        assert(rows@.map_values(|r: TableRow| r@).len() == rows@.len());
    }
    rows
}

/// The text of a byte count shown in whole bytes: `N B`.
pub fn byte_count_text(bytes: u64) -> (r: String)
    ensures
        r@ == decimal(bytes as nat) + " B"@,
{
    let mut r = decimal_string(bytes);
    r.append(" B");
    r
}

/// The rows of the first `n` servers hold, for each such server `i`, its
/// heading at position `row_total` of the servers before it, followed by
/// one row per forwarding `j` of it that names server `i` and forwarding `j`
/// and shows that forwarding's state, local port, far end and process.
proof fn lemma_rows_upto_positions(m: MonitorView, n: nat, i: int, j: int)
    requires
        0 <= i < n <= m.servers.len(),
    ensures
        ({
            let rows = table_rows_upto(m, n);
            let start = row_total(m.servers.take(i)) as int;
            &&& start + 1 + m.servers[i].forwardings.len() <= rows.len()
            &&& rows[start] == RowText::Server(server_header_text(m.servers[i]))
            &&& 0 <= j < m.servers[i].forwardings.len() ==> rows[start + 1 + j]
                == forwarding_row_text(m, i, j)
        }),
    decreases n,
{
    lemma_table_rows_count(m, (n - 1) as nat);
    let prefix = table_rows_upto(m, (n - 1) as nat);
    let rows = table_rows_upto(m, n);
    assert(rows == prefix + server_rows(m, n - 1));
    if i == n - 1 {
        let start = row_total(m.servers.take(i)) as int;
        assert(prefix.len() == start);
        if 0 <= j < m.servers[i].forwardings.len() {
            assert(rows[start + 1 + j] == server_rows(m, i)[1 + j]);
        }
        assert(rows[start] == server_rows(m, i)[0]);
    } else {
        lemma_rows_upto_positions(m, (n - 1) as nat, i, j);
        lemma_row_total_step(m.servers, i);
        lemma_row_total_prefix(m.servers.take(n - 1), i + 1);
        assert(m.servers.take(n - 1).take(i + 1) =~= m.servers.take(i + 1));
        let start = row_total(m.servers.take(i)) as int;
        assert(rows[start] == prefix[start]);
        if 0 <= j < m.servers[i].forwardings.len() {
            assert(rows[start + 1 + j] == prefix[start + 1 + j]);
        }
    }
}

/// Where each server's rows stand in the status table: the heading of
/// server `i` comes after the rows of the servers before it (one per server
/// and one per forwarding), and its `j`-th forwarding row follows the
/// heading at distance `j + 1`, names server `i` and forwarding `j`, and
/// shows the numeral of that forwarding's local port, its far end as
/// `host:numeral`, its state and its process.
pub proof fn lemma_table_row_positions(m: MonitorView, i: int, j: int)
    requires
        0 <= i < m.servers.len(),
        0 <= j < m.servers[i].forwardings.len(),
    ensures
        ({
            let rows = table_rows(m);
            let start = row_total(m.servers.take(i)) as int;
            let f = m.servers[i].forwardings[j];
            &&& rows[start] == RowText::Server(server_header_text(m.servers[i]))
            &&& rows[start + 1 + j] matches RowText::Forwarding {
                server,
                forwarding,
                status,
                local_port,
                remote,
                process,
            } && server == i && forwarding == j && status == status_text(f.status)
                && is_numeral(local_port) && numeral_value(local_port) == f.local_port
                && remote == far_end_text(f.remote_host, f.remote_port)
                && process == process_shown(m, f.local_port)
        }),
{
    lemma_rows_upto_positions(m, m.servers.len(), i, j);
    lemma_decimal_denotes(m.servers[i].forwardings[j].local_port as nat);
}

/// Every forwarding row of the status table names a server of the monitor
/// and a forwarding that server has.
pub proof fn lemma_table_rows_name_existing_forwardings(m: MonitorView, q: int)
    requires
        0 <= q < table_rows(m).len(),
    ensures
        table_rows(m)[q] matches RowText::Forwarding { server, forwarding, .. } ==> 0 <= server
            < m.servers.len() && 0 <= forwarding < m.servers[server].forwardings.len(),
{
    lemma_rows_upto_name_existing(m, m.servers.len(), q);
}

proof fn lemma_rows_upto_name_existing(m: MonitorView, n: nat, q: int)
    requires
        n <= m.servers.len(),
        0 <= q < table_rows_upto(m, n).len(),
    ensures
        table_rows_upto(m, n)[q] matches RowText::Forwarding { server, forwarding, .. } ==> 0
            <= server < m.servers.len() && 0 <= forwarding < m.servers[server].forwardings.len(),
    decreases n,
{
    let prefix = table_rows_upto(m, (n - 1) as nat);
    let rows = table_rows_upto(m, n);
    if q < prefix.len() {
        assert(rows[q] == prefix[q]);
        lemma_rows_upto_name_existing(m, (n - 1) as nat, q);
    } else {
        assert(rows[q] == server_rows(m, n - 1)[q - prefix.len()]);
    }
}

/// Among character keys only `q` (with or without Control) and `c` with
/// Control quit; every other character key leaves the quit flag alone, and
/// one that is not `j` or `k` changes nothing at all, Control or not.
pub proof fn lemma_only_quit_keys_quit(state: AppView, key: KeyPress, count: nat)
    ensures
        key.code matches Key::Char(ch) && ch != 'q' && !(ch == 'c' && key.ctrl) ==> key_outcome(
            state,
            key,
            count,
        ).should_quit == state.should_quit,
        key.code matches Key::Char(ch) && ch != 'q' && ch != 'j' && ch != 'k' && !(ch == 'c'
            && key.ctrl) ==> key_outcome(state, key, count) == state,
        key.code matches Key::Char(ch) && (ch == 'q' || (ch == 'c' && key.ctrl))
            ==> key_outcome(state, key, count).should_quit && key_outcome(state, key, count).selected
            == state.selected,
        key.code == Key::Up || key.code == Key::Down ==> key_outcome(state, key, count).should_quit
            == state.should_quit,
{
}

/// The uptime text reads back as the uptime: seconds alone below a minute;
/// below 24 minutes, `Mm Ss` with `M * 60 + S` the seconds and `S` below
/// 60; from there on, `Hh Mm` with `H` the number of whole 24-minute spans
/// and `M` the minutes past the hour; and from 576 minutes on, `Dd Hh`
/// with `D * 24 + H` the 24-minute spans and `H` below 24.
pub proof fn lemma_duration_text_reads_back(secs: nat)
    ensures
        secs < 60 ==> exists|a: Seq<char>|
            #![trigger numeral_value(a)]
            duration_text(secs) == a + seq!['s'] && is_numeral(a) && numeral_value(a) == secs,
        60 <= secs && secs / 60 < 24 ==> exists|a: Seq<char>, b: Seq<char>|
            #![trigger numeral_value(a), numeral_value(b)]
            duration_text(secs) == a + seq!['m'] + b + seq!['s'] && is_numeral(a) && is_numeral(b)
                && numeral_value(a) * 60 + numeral_value(b) == secs && numeral_value(b) < 60,
        24 <= secs / 60 && secs / 60 / 24 < 24 ==> exists|a: Seq<char>, b: Seq<char>|
            #![trigger numeral_value(a), numeral_value(b)]
            duration_text(secs) == a + seq!['h'] + b + seq!['m'] && is_numeral(a) && is_numeral(b)
                && numeral_value(a) * 24 <= secs / 60 < (numeral_value(a) + 1) * 24
                && numeral_value(b) == (secs / 60) % 60,
        secs / 60 / 24 >= 24 ==> exists|a: Seq<char>, b: Seq<char>|
            #![trigger numeral_value(a), numeral_value(b)]
            duration_text(secs) == a + seq!['d'] + b + seq!['h'] && is_numeral(a) && is_numeral(b)
                && numeral_value(a) * 24 + numeral_value(b) == secs / 60 / 24 && numeral_value(b)
                < 24,
{
    let mins = secs / 60;
    let hours = mins / 24;
    let days = hours / 24;
    if days > 0 {
        lemma_decimal_denotes(days);
        lemma_decimal_denotes(hours % 24);
        assert(numeral_value(decimal(days)) * 24 + numeral_value(decimal(hours % 24)) == hours);
    } else if hours > 0 {
        lemma_decimal_denotes(hours);
        lemma_decimal_denotes(mins % 60);
        assert(numeral_value(decimal(hours)) == hours);
        assert(numeral_value(decimal(mins % 60)) == mins % 60);
    } else if mins > 0 {
        lemma_decimal_denotes(mins);
        lemma_decimal_denotes(secs % 60);
        assert(numeral_value(decimal(mins)) * 60 + numeral_value(decimal(secs % 60)) == secs);
    } else {
        lemma_decimal_denotes(secs);
        assert(numeral_value(decimal(secs)) == secs);
    }
}

/// A server's heading reads back as its name, user, host, port and number
/// of forwardings; a far end reads back as its host and port.
pub proof fn lemma_row_texts_read_back(server: ServerView, host: Seq<char>, port: u16)
    ensures
        exists|a: Seq<char>, b: Seq<char>|
            #![trigger numeral_value(a), numeral_value(b)]
            server_header_text(server) == server.name + " | "@ + server.username + "@"@ + server.host
                + ":"@ + a + " | "@ + b + " forwardings"@ && is_numeral(a) && numeral_value(a)
                == server.port && is_numeral(b) && numeral_value(b) == server.forwardings.len(),
        exists|a: Seq<char>|
            #![trigger numeral_value(a)]
            far_end_text(host, port) == host + ":"@ + a && is_numeral(a) && numeral_value(a) == port,
{
    lemma_decimal_denotes(server.port as nat);
    lemma_decimal_denotes(server.forwardings.len());
    lemma_decimal_denotes(port as nat);
}

} // verus!
