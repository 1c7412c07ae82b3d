//! What the status screen shows: one row per namespace, in name order, kept up to
//! date from the status reports, and when the screen closes.

use vstd::prelude::*;
use crate::connection::{ConnectionStatus, ForwardBinding, StatusEvent, StatusEventView, opt_view};
use crate::text::{decimal, join, join_strings, label_offset, lemma_join_layout, push_decimal, views};

verus! {

/// Whether `a` comes before `b` in the order of names: character by character by
/// code point, a proper prefix first.
pub open spec fn name_precedes(a: Seq<char>, b: Seq<char>) -> bool
    decreases a.len(),
{
    if a.len() == 0 {
        b.len() > 0
    } else if b.len() == 0 {
        false
    } else if a[0] == b[0] {
        name_precedes(a.drop_first(), b.drop_first())
    } else {
        (a[0] as int) < (b[0] as int)
    }
}

/// No name comes before itself.
pub proof fn lemma_name_order_irreflexive(a: Seq<char>)
    ensures
        !name_precedes(a, a),
    decreases a.len(),
{
    if a.len() > 0 {
        lemma_name_order_irreflexive(a.drop_first());
    }
}

/// Of two distinct names, one comes before the other, and not both.
pub proof fn lemma_name_order_total(a: Seq<char>, b: Seq<char>)
    ensures
        a != b ==> (name_precedes(a, b) || name_precedes(b, a)),
        !(name_precedes(a, b) && name_precedes(b, a)),
    decreases a.len(),
{
    if a.len() > 0 && b.len() > 0 {
        if a[0] == b[0] {
            lemma_name_order_total(a.drop_first(), b.drop_first());
            if a != b {
                assert(a.drop_first() != b.drop_first()) by {
                    if a.drop_first() == b.drop_first() {
                        assert(a =~= seq![a[0]] + a.drop_first());
                        assert(b =~= seq![b[0]] + b.drop_first());
                    }
                }
            }
        } else {
            assert(a[0] as int != b[0] as int);
        }
    } else if a.len() == 0 && b.len() == 0 {
        assert(a =~= b);
    }
}

/// The order of names is transitive.
pub proof fn lemma_name_order_transitive(a: Seq<char>, b: Seq<char>, c: Seq<char>)
    requires
        name_precedes(a, b),
        name_precedes(b, c),
    ensures
        name_precedes(a, c),
    decreases a.len(),
{
    if a.len() > 0 && b.len() > 0 && c.len() > 0 {
        if a[0] == b[0] && b[0] == c[0] {
            lemma_name_order_transitive(a.drop_first(), b.drop_first(), c.drop_first());
        } else {
            assert(a[0] as int <= b[0] as int);
            assert(b[0] as int <= c[0] as int);
            if a[0] as int == c[0] as int {
                assert(a[0] == c[0]);
            }
        }
    }
}

/// Whether the name `a` comes before the name `b`.
pub fn precedes(a: &String, b: &String) -> (r: bool)
    ensures
        r == name_precedes(a@, b@),
{
    let a_len = a.as_str().unicode_len();
    let b_len = b.as_str().unicode_len();
    let mut i: usize = 0;
    proof {
        assert(a@.skip(0) =~= a@);
        assert(b@.skip(0) =~= b@);
    }
    while i < a_len && i < b_len
        invariant
            a_len == a@.len(),
            b_len == b@.len(),
            0 <= i <= a_len,
            i <= b_len,
            name_precedes(a@, b@) == name_precedes(a@.skip(i as int), b@.skip(i as int)),
        decreases a_len - i,
    {
        let x = a.as_str().get_char(i);
        let y = b.as_str().get_char(i);
        proof {
            assert(a@.skip(i as int)[0] == x);
            assert(b@.skip(i as int)[0] == y);
        }
        if x != y {
            return (x as u32) < (y as u32);
        }
        proof {
            assert(a@.skip(i as int).drop_first() =~= a@.skip(i + 1));
            assert(b@.skip(i as int).drop_first() =~= b@.skip(i + 1));
        }
        i = i + 1;
    }
    i < b_len
}

/// The colour in which a status is shown.
#[derive(Debug, Clone, Copy, PartialEq, Eq, Structural)]
pub enum StatusColor {
    Yellow,
    Green,
    Magenta,
    Red,
    Gray,
}

/// The word under which a status is shown.
pub open spec fn status_text(status: ConnectionStatus) -> Seq<char> {
    match status {
        ConnectionStatus::Connecting => "Connecting"@,
        ConnectionStatus::Connected => "Connected"@,
        ConnectionStatus::Reconnecting => "Retrying"@,
        ConnectionStatus::Failed => "Failed"@,
        ConnectionStatus::Stopped => "Stopped"@,
    }
}

/// The colour in which a status is shown.
pub open spec fn status_color(status: ConnectionStatus) -> StatusColor {
    match status {
        ConnectionStatus::Connecting => StatusColor::Yellow,
        ConnectionStatus::Connected => StatusColor::Green,
        ConnectionStatus::Reconnecting => StatusColor::Magenta,
        ConnectionStatus::Failed => StatusColor::Red,
        ConnectionStatus::Stopped => StatusColor::Gray,
    }
}

/// The word and the colour under which a status is shown.
pub fn status_view(status: &ConnectionStatus) -> (r: (&'static str, StatusColor))
    ensures
        r.0@ == status_text(*status),
        r.1 == status_color(*status),
{
    match status {
        ConnectionStatus::Connecting => ("Connecting", StatusColor::Yellow),
        ConnectionStatus::Connected => ("Connected", StatusColor::Green),
        ConnectionStatus::Reconnecting => ("Retrying", StatusColor::Magenta),
        ConnectionStatus::Failed => ("Failed", StatusColor::Red),
        ConnectionStatus::Stopped => ("Stopped", StatusColor::Gray),
    }
}

/// The text of the ports column: `-` when there is nothing, else the labels joined by `, `.
pub open spec fn ports_text(labels: Seq<Seq<char>>) -> Seq<char> {
    if labels.len() == 0 {
        "-"@
    } else {
        join(labels, ", "@)
    }
}

/// `local -> remote`, the label of a binding in the ports column.
pub open spec fn binding_label(b: ForwardBinding) -> Seq<char> {
    decimal(b.local as nat) + " -> "@ + decimal(b.remote as nat)
}

/// The text of the ports column for given labels.
pub fn format_port_labels(labels: &[String]) -> (s: String)
    ensures
        s@ == ports_text(views(labels@)),
{
    if labels.len() == 0 {
        String::from_str("-")
    } else {
        join_strings(labels, ", ")
    }
}

/// The text of the ports column for given bindings: `-` when there is none, else
/// `local -> remote` for each, joined by `, `.
pub fn format_ports(forwards: &[ForwardBinding]) -> (s: String)
    ensures
        s@ == ports_text(forwards@.map_values(|b: ForwardBinding| binding_label(b))),
{
    let mut labels: Vec<String> = Vec::new();
    let mut i: usize = 0;
    while i < forwards.len()
        invariant
            0 <= i <= forwards@.len(),
            labels@.len() == i,
            forall|j: int| 0 <= j < i ==> #[trigger] labels@[j]@ == binding_label(forwards@[j]),
        decreases forwards@.len() - i,
    {
        let b = forwards[i];
        let mut label = String::new();
        push_decimal(&mut label, b.local as u64);
        label.append(" -> ");
        push_decimal(&mut label, b.remote as u64);
        proof {
            assert(label@ =~= binding_label(b));
        }
        labels.push(label);
        i = i + 1;
    }
    proof {
        assert(views(labels@) =~= forwards@.map_values(|b: ForwardBinding| binding_label(b)));
    }
    format_port_labels(labels.as_slice())
}

/// What the screen shows of one namespace.
#[derive(Debug)]
pub struct UiEntry {
    pub status: ConnectionStatus,
    pub attempt: u32,
    pub message: Option<String>,
    pub ports: String,
}

/// The mathematical value of a [`UiEntry`].
pub struct UiEntryView {
    pub status: ConnectionStatus,
    pub attempt: u32,
    pub message: Option<Seq<char>>,
    pub ports: Seq<char>,
}

impl View for UiEntry {
    type V = UiEntryView;

    open spec fn view(&self) -> UiEntryView {
        UiEntryView {
            status: self.status,
            attempt: self.attempt,
            message: opt_view(self.message),
            ports: self.ports@,
        }
    }
}

/// What the screen shows of a namespace after a report on it.
pub open spec fn entry_for(e: StatusEventView) -> UiEntryView {
    UiEntryView {
        status: e.status,
        attempt: e.attempt,
        message: e.message,
        ports: ports_text(e.forwards),
    }
}

/// The names of a listing, in order, are strictly increasing.
pub open spec fn sorted_names(l: Seq<(Seq<char>, UiEntryView)>) -> bool {
    forall|i: int, j: int|
        0 <= i < j < l.len() ==> name_precedes(#[trigger] l[i].0, #[trigger] l[j].0)
}

/// Some entry of the listing carries the name `name`.
pub open spec fn listed(l: Seq<(Seq<char>, UiEntryView)>, name: Seq<char>) -> bool {
    exists|i: int| 0 <= i < l.len() && #[trigger] l[i].0 == name
}

/// A listing read as a map from names to entries.
pub open spec fn listing_map(l: Seq<(Seq<char>, UiEntryView)>) -> Map<Seq<char>, UiEntryView> {
    Map::new(
        |name: Seq<char>| listed(l, name),
        |name: Seq<char>| listed_value(l, name),
    )
}

/// The entry listed under `name`.
pub open spec fn listed_value(l: Seq<(Seq<char>, UiEntryView)>, name: Seq<char>) -> UiEntryView {
    l[listed_index(l, name)].1
}

/// A position at which `name` is listed.
pub open spec fn listed_index(l: Seq<(Seq<char>, UiEntryView)>, name: Seq<char>) -> int {
    choose|i: int| 0 <= i < l.len() && #[trigger] l[i].0 == name
}

proof fn lemma_sorted_distinct(l: Seq<(Seq<char>, UiEntryView)>, i: int, j: int)
    requires
        sorted_names(l),
        0 <= i < l.len(),
        0 <= j < l.len(),
        i != j,
    ensures
        l[i].0 != l[j].0,
{
    lemma_name_order_irreflexive(l[i].0);
    if i < j {
        assert(name_precedes(l[i].0, l[j].0));
    } else {
        assert(name_precedes(l[j].0, l[i].0));
    }
}

proof fn lemma_listing_entry(l: Seq<(Seq<char>, UiEntryView)>, i: int)
    requires
        sorted_names(l),
        0 <= i < l.len(),
    ensures
        listing_map(l).dom().contains(l[i].0),
        listing_map(l)[l[i].0] == l[i].1,
{
    let name = l[i].0;
    assert(listed(l, name));
    let j = listed_index(l, name);
    assert(0 <= j < l.len() && l[j].0 == name);
    if j != i {
        lemma_sorted_distinct(l, i, j);
    }
}

/// The listing of a vector of named entries.
pub open spec fn listing_of(entries: Seq<(String, UiEntry)>) -> Seq<(Seq<char>, UiEntryView)> {
    entries.map_values(|e: (String, UiEntry)| (e.0@, e.1@))
}

/// What the status screen knows: the latest entry of each namespace, in name order,
/// and whether the stream of reports has ended.
#[derive(Debug)]
pub struct UiState {
    entries: Vec<(String, UiEntry)>,
    disconnected: bool,
}

/// One row of the status table, as text.
#[derive(Debug)]
pub struct TableRow {
    pub namespace: String,
    pub status: &'static str,
    pub color: StatusColor,
    pub attempt: String,
    pub ports: String,
    pub message: String,
}

impl UiState {
    #[verifier::type_invariant]
    spec fn well_formed(self) -> bool {
        sorted_names(listing_of(self.entries@))
    }

    /// The entries, in name order.
    pub closed spec fn listing(&self) -> Seq<(Seq<char>, UiEntryView)> {
        listing_of(self.entries@)
    }

    /// Whether the stream of reports has ended.
    pub closed spec fn disconnected_view(&self) -> bool {
        self.disconnected
    }

    /// A screen with no entries, still receiving reports.
    pub fn new() -> (s: Self)
        ensures
            s.listing() == Seq::<(Seq<char>, UiEntryView)>::empty(),
            !s.disconnected_view(),
    {
        let s = UiState { entries: Vec::new(), disconnected: false };
        proof {
            assert(s.listing() =~= Seq::<(Seq<char>, UiEntryView)>::empty());
        }
        s
    }

    /// Whether the stream of reports has ended.
    pub fn is_disconnected(&self) -> (r: bool)
        ensures
            r == self.disconnected_view(),
    {
        self.disconnected
    }

    /// Records that the stream of reports has ended.
    pub fn mark_disconnected(&mut self)
        ensures
            final(self).listing() == old(self).listing(),
            final(self).disconnected_view(),
    {
        proof {
            use_type_invariant(&*self);
        }
        self.disconnected = true;
    }

    /// Whether no namespace has been reported yet.
    pub fn is_empty(&self) -> (r: bool)
        ensures
            r == (self.listing().len() == 0),
    {
        self.entries.len() == 0
    }

    /// Takes in a report: the namespace's entry becomes what the report says, in its
    /// place by name; the other entries stay.
    pub fn apply(&mut self, event: StatusEvent)
        ensures
            sorted_names(final(self).listing()),
            listing_map(final(self).listing()) == listing_map(old(self).listing()).insert(
                event@.namespace,
                entry_for(event@),
            ),
            final(self).disconnected_view() == old(self).disconnected_view(),
    {
        proof {
            use_type_invariant(&*self);
        }
        let ghost before = self.listing();
        let ghost key = event@.namespace;
        let ghost value = entry_for(event@);
        let ports = format_port_labels(event.forwards.as_slice());
        let name = event.namespace;
        let entry = UiEntry { status: event.status, attempt: event.attempt, message: event.message, ports };
        assert(entry@ == value);
        let mut pos: usize = 0;
        while pos < self.entries.len() && precedes(&self.entries[pos].0, &name)
            invariant
                0 <= pos <= self.entries@.len(),
                before == listing_of(self.entries@),
                sorted_names(before),
                name@ == key,
                forall|j: int| 0 <= j < pos ==> name_precedes(#[trigger] before[j].0, key),
            decreases self.entries@.len() - pos,
        {
            pos = pos + 1;
        }
        let mut entries: Vec<(String, UiEntry)> = Vec::new();
        std::mem::swap(&mut entries, &mut self.entries);
        if pos < entries.len() && entries[pos].0 == name {
            entries.set(pos, (name, entry));
            proof {
                let after = listing_of(entries@);
                assert(after =~= before.update(pos as int, (key, value)));
                assert(sorted_names(after)) by {
                    assert forall|i: int, j: int| 0 <= i < j < after.len() implies name_precedes(
                        #[trigger] after[i].0,
                        #[trigger] after[j].0,
                    ) by {
                        assert(name_precedes(before[i].0, before[j].0));
                    }
                }
                Self::lemma_map_after_update(before, after, pos as int, key, value);
            }
        } else {
            entries.insert(pos, (name, entry));
            proof {
                let after = listing_of(entries@);
                assert(after =~= before.insert(pos as int, (key, value)));
                if pos < before.len() {
                    lemma_name_order_total(before[pos as int].0, key);
                }
                assert(sorted_names(after)) by {
                    assert forall|i: int, j: int| 0 <= i < j < after.len() implies name_precedes(
                        #[trigger] after[i].0,
                        #[trigger] after[j].0,
                    ) by {
                        if j < pos {
                            assert(name_precedes(before[i].0, before[j].0));
                        } else if j == pos {
                            assert(name_precedes(before[i].0, key));
                        } else if i < pos {
                            assert(name_precedes(before[i].0, key));
                            assert(name_precedes(key, before[pos as int].0));
                            if j - 1 > pos {
                                assert(name_precedes(before[pos as int].0, before[j - 1].0));
                                lemma_name_order_transitive(key, before[pos as int].0, before[j - 1].0);
                            }
                            lemma_name_order_transitive(before[i].0, key, before[j - 1].0);
                        } else if i == pos {
                            assert(name_precedes(key, before[pos as int].0));
                            if j - 1 > pos {
                                assert(name_precedes(before[pos as int].0, before[j - 1].0));
                                lemma_name_order_transitive(key, before[pos as int].0, before[j - 1].0);
                            }
                        } else {
                            assert(name_precedes(before[i - 1].0, before[j - 1].0));
                        }
                    }
                }
                Self::lemma_map_after_insert(before, after, pos as int, key, value);
            }
        }
        self.entries = entries;
    }

    proof fn lemma_map_after_update(
        before: Seq<(Seq<char>, UiEntryView)>,
        after: Seq<(Seq<char>, UiEntryView)>,
        pos: int,
        key: Seq<char>,
        value: UiEntryView,
    )
        requires
            sorted_names(before),
            sorted_names(after),
            0 <= pos < before.len(),
            before[pos].0 == key,
            after == before.update(pos, (key, value)),
        ensures
            listing_map(after) == listing_map(before).insert(key, value),
    {
        assert forall|k: Seq<char>| #[trigger] listed(after, k) == (listed(before, k) || k == key) by {
            if listed(before, k) {
                let j = choose|j: int| 0 <= j < before.len() && #[trigger] before[j].0 == k;
                assert(after[j].0 == k);
            }
            if k == key {
                assert(after[pos].0 == k);
            }
            if listed(after, k) {
                let j = choose|j: int| 0 <= j < after.len() && #[trigger] after[j].0 == k;
                assert(before[j].0 == k);
            }
        }
        assert forall|k: Seq<char>| #[trigger] listed(after, k) implies listing_map(after)[k]
            == listing_map(before).insert(key, value)[k] by {
            let j = choose|j: int| 0 <= j < after.len() && #[trigger] after[j].0 == k;
            lemma_listing_entry(after, j);
            if j != pos {
                lemma_listing_entry(before, j);
                lemma_sorted_distinct(after, j, pos);
                assert(after[j] == before[j]);
                assert(k != key);
            }
        }
        assert(listing_map(after) =~= listing_map(before).insert(key, value));
    }

    proof fn lemma_map_after_insert(
        before: Seq<(Seq<char>, UiEntryView)>,
        after: Seq<(Seq<char>, UiEntryView)>,
        pos: int,
        key: Seq<char>,
        value: UiEntryView,
    )
        requires
            sorted_names(before),
            sorted_names(after),
            0 <= pos <= before.len(),
            after == before.insert(pos, (key, value)),
        ensures
            listing_map(after) == listing_map(before).insert(key, value),
    {
        assert(after[pos].0 == key);
        assert forall|k: Seq<char>| #[trigger] listed(after, k) == (listed(before, k) || k == key) by {
            if listed(before, k) {
                let j = choose|j: int| 0 <= j < before.len() && #[trigger] before[j].0 == k;
                if j < pos {
                    assert(after[j].0 == k);
                } else {
                    assert(after[j + 1].0 == k);
                }
            }
            if k == key {
                assert(after[pos].0 == k);
            }
            if listed(after, k) {
                let j = choose|j: int| 0 <= j < after.len() && #[trigger] after[j].0 == k;
                if j < pos {
                    assert(before[j].0 == k);
                } else if j > pos {
                    assert(before[j - 1].0 == k);
                }
            }
        }
        assert forall|k: Seq<char>| #[trigger] listed(after, k) implies listing_map(after)[k]
            == listing_map(before).insert(key, value)[k] by {
            let j = choose|j: int| 0 <= j < after.len() && #[trigger] after[j].0 == k;
            lemma_listing_entry(after, j);
            if j < pos {
                lemma_listing_entry(before, j);
                lemma_sorted_distinct(after, j, pos);
                assert(after[j] == before[j]);
                assert(k != key);
            } else if j > pos {
                lemma_listing_entry(before, j - 1);
                lemma_sorted_distinct(after, j, pos);
                assert(after[j] == before[j - 1]);
                assert(k != key);
            }
        }
        assert(listing_map(after) =~= listing_map(before).insert(key, value));
    }
}

/// The text of a table row.
pub struct TableRowView {
    pub namespace: Seq<char>,
    pub status: Seq<char>,
    pub color: StatusColor,
    pub attempt: Seq<char>,
    pub ports: Seq<char>,
    pub message: Seq<char>,
}

impl View for TableRow {
    type V = TableRowView;

    open spec fn view(&self) -> TableRowView {
        TableRowView {
            namespace: self.namespace@,
            status: self.status@,
            color: self.color,
            attempt: self.attempt@,
            ports: self.ports@,
            message: self.message@,
        }
    }
}

/// The row that shows a namespace's entry: name, status word and colour, attempt
/// number, ports, and the message or nothing.
pub open spec fn row_for(name: Seq<char>, e: UiEntryView) -> TableRowView {
    TableRowView {
        namespace: name,
        status: status_text(e.status),
        color: status_color(e.status),
        attempt: decimal(e.attempt as nat),
        ports: e.ports,
        message: match e.message {
            Some(m) => m,
            None => Seq::empty(),
        },
    }
}

/// The line shown in place of the table when there is no entry.
pub open spec fn placeholder_text(disconnected: bool) -> Seq<char> {
    if disconnected {
        "No active tasks"@
    } else {
        "Waiting for updates\u{2026}"@
    }
}

/// The key that was pressed, as far as the screen cares.
#[derive(Debug, Clone, Copy, PartialEq, Eq, Structural)]
pub enum KeyKind {
    Char(char),
    Esc,
    Other,
}

/// A key press and whether Control was held.
#[derive(Debug, Clone, Copy, PartialEq, Eq, Structural)]
pub struct KeyPress {
    pub code: KeyKind,
    pub control: bool,
}

/// The keys that close the screen and request shutdown: Control-C, `q`, `Q` and Escape.
pub open spec fn quits(key: KeyPress) -> bool {
    match key.code {
        KeyKind::Char(c) => (c == 'c' && key.control) || c == 'q' || c == 'Q',
        KeyKind::Esc => true,
        KeyKind::Other => false,
    }
}

/// Whether the key closes the screen and requests shutdown.
pub fn is_quit_key(key: &KeyPress) -> (r: bool)
    ensures
        r == quits(*key),
{
    match key.code {
        KeyKind::Char(c) => (c == 'c' && key.control) || c == 'q' || c == 'Q',
        KeyKind::Esc => true,
        KeyKind::Other => false,
    }
}

impl UiState {
    /// The rows of the table, one per entry, in name order.
    pub fn rows(&self) -> (r: Vec<TableRow>)
        ensures
            sorted_names(self.listing()),
            r@.len() == self.listing().len(),
            forall|i: int|
                0 <= i < r@.len() ==> #[trigger] r@[i]@ == row_for(self.listing()[i].0, self.listing()[i].1),
    {
        proof {
            use_type_invariant(self);
        }
        let mut rows: Vec<TableRow> = Vec::new();
        let mut i: usize = 0;
        while i < self.entries.len()
            invariant
                0 <= i <= self.entries@.len(),
                rows@.len() == i,
                forall|j: int|
                    0 <= j < i ==> #[trigger] rows@[j]@ == row_for(self.listing()[j].0, self.listing()[j].1),
            decreases self.entries@.len() - i,
        {
            let (name, entry) = (&self.entries[i].0, &self.entries[i].1);
            let (status, color) = status_view(&entry.status);
            let message = match &entry.message {
                Some(m) => m.clone(),
                None => String::new(),
            };
            let row = TableRow {
                namespace: name.clone(),
                status,
                color,
                attempt: crate::text::decimal_string(entry.attempt as u64),
                ports: entry.ports.clone(),
                message,
            };
            proof {
                assert(row@ =~= row_for(self.listing()[i as int].0, self.listing()[i as int].1));
            }
            rows.push(row);
            i = i + 1;
        }
        rows
    }

    /// The line shown in place of the table, when there is no entry.
    pub fn placeholder(&self) -> (r: Option<&'static str>)
        ensures
            match r {
                Some(t) => self.listing().len() == 0 && t@ == placeholder_text(self.disconnected_view()),
                None => self.listing().len() > 0,
            },
    {
        if self.entries.len() > 0 {
            None
        } else if self.disconnected {
            Some("No active tasks")
        } else {
            Some("Waiting for updates\u{2026}")
        }
    }

    /// Whether the screen has nothing more to show: the reports have ended and no
    /// namespace was ever reported.
    pub fn finished(&self) -> (r: bool)
        ensures
            r == (self.disconnected_view() && self.listing().len() == 0),
    {
        self.disconnected && self.entries.len() == 0
    }
}

proof fn lemma_drop_first_map(l: Seq<(Seq<char>, UiEntryView)>)
    requires
        sorted_names(l),
        l.len() > 0,
    ensures
        sorted_names(l.drop_first()),
        listing_map(l.drop_first()) == listing_map(l).remove(l[0].0),
{
    let rest = l.drop_first();
    assert(sorted_names(rest)) by {
        assert forall|i: int, j: int| 0 <= i < j < rest.len() implies name_precedes(
            #[trigger] rest[i].0,
            #[trigger] rest[j].0,
        ) by {
            assert(rest[i] == l[i + 1]);
            assert(rest[j] == l[j + 1]);
        }
    }
    assert forall|k: Seq<char>| #[trigger] listed(rest, k) == (listed(l, k) && k != l[0].0) by {
        if listed(rest, k) {
            let j = choose|j: int| 0 <= j < rest.len() && #[trigger] rest[j].0 == k;
            assert(rest[j] == l[j + 1]);
            assert(listed(l, k));
            lemma_sorted_distinct(l, 0, j + 1);
        }
        if listed(l, k) && k != l[0].0 {
            let j = choose|j: int| 0 <= j < l.len() && #[trigger] l[j].0 == k;
            assert(j > 0);
            assert(rest[j - 1] == l[j]);
            assert(listed(rest, k));
        }
    }
    assert forall|k: Seq<char>| #[trigger] listed(rest, k) implies listing_map(rest)[k] == listing_map(l)[k] by {
        let j = choose|j: int| 0 <= j < rest.len() && #[trigger] rest[j].0 == k;
        assert(rest[j] == l[j + 1]);
        lemma_listing_entry(rest, j);
        lemma_listing_entry(l, j + 1);
    }
    assert(listing_map(rest) =~= listing_map(l).remove(l[0].0));
}

/// A listing in name order is determined by what it maps each name to: two listings
/// in name order with the same entries under the same names are equal.
pub proof fn lemma_sorted_listing_determined(l1: Seq<(Seq<char>, UiEntryView)>, l2: Seq<(Seq<char>, UiEntryView)>)
    requires
        sorted_names(l1),
        sorted_names(l2),
        listing_map(l1) == listing_map(l2),
    ensures
        l1 == l2,
    decreases l1.len(),
{
    if l1.len() == 0 {
        if l2.len() > 0 {
            lemma_listing_entry(l2, 0);
            assert(!listed(l1, l2[0].0));
        }
        assert(l1 =~= l2);
    } else {
        lemma_listing_entry(l1, 0);
        let a = l1[0].0;
        assert(listing_map(l2).dom().contains(a));
        assert(listed(l2, a));
        let j = choose|j: int| 0 <= j < l2.len() && #[trigger] l2[j].0 == a;
        lemma_listing_entry(l2, 0);
        let b = l2[0].0;
        assert(listing_map(l1).dom().contains(b));
        assert(listed(l1, b));
        let k = choose|k: int| 0 <= k < l1.len() && #[trigger] l1[k].0 == b;
        if j > 0 {
            assert(name_precedes(b, a));
            if k > 0 {
                assert(name_precedes(a, b));
                lemma_name_order_total(a, b);
            } else {
                lemma_name_order_irreflexive(a);
            }
        }
        assert(j == 0);
        lemma_listing_entry(l2, 0);
        assert(l1[0] == l2[0]);
        lemma_drop_first_map(l1);
        lemma_drop_first_map(l2);
        lemma_sorted_listing_determined(l1.drop_first(), l2.drop_first());
        assert(l1 =~= seq![l1[0]] + l1.drop_first());
        assert(l2 =~= seq![l2[0]] + l2.drop_first());
    }
}

/// Reports on two different namespaces lead to the same screen in either order of
/// arrival: listings in name order that hold the same entries are the same listing.
pub proof fn lemma_reports_on_different_namespaces_commute(
    start: Seq<(Seq<char>, UiEntryView)>,
    first: StatusEventView,
    second: StatusEventView,
    one_way: Seq<(Seq<char>, UiEntryView)>,
    other_way: Seq<(Seq<char>, UiEntryView)>,
)
    requires
        first.namespace != second.namespace,
        sorted_names(one_way),
        sorted_names(other_way),
        listing_map(one_way) == listing_map(start).insert(first.namespace, entry_for(first)).insert(
            second.namespace,
            entry_for(second),
        ),
        listing_map(other_way) == listing_map(start).insert(second.namespace, entry_for(second)).insert(
            first.namespace,
            entry_for(first),
        ),
    ensures
        one_way == other_way,
{
    assert(listing_map(one_way) =~= listing_map(other_way));
    lemma_sorted_listing_determined(one_way, other_way);
}

/// A report repeated changes nothing: the screen after the same report twice is the
/// screen after it once.
pub proof fn lemma_repeated_report_changes_nothing(
    start: Seq<(Seq<char>, UiEntryView)>,
    report: StatusEventView,
    once: Seq<(Seq<char>, UiEntryView)>,
    twice: Seq<(Seq<char>, UiEntryView)>,
)
    requires
        sorted_names(once),
        sorted_names(twice),
        listing_map(once) == listing_map(start).insert(report.namespace, entry_for(report)),
        listing_map(twice) == listing_map(once).insert(report.namespace, entry_for(report)),
    ensures
        once == twice,
{
    assert(listing_map(once) =~= listing_map(twice));
    lemma_sorted_listing_determined(once, twice);
}

/// The ports column: `-` when there is no label; otherwise every label, in order, each
/// starting where the earlier labels and their `, ` separators end, with `, ` between two
/// neighbours and nothing else, so that its length is the sum of the label lengths and
/// two characters for each separator.
pub proof fn lemma_ports_text_layout(labels: Seq<Seq<char>>)
    ensures
        labels.len() == 0 ==> ports_text(labels) == "-"@,
        labels.len() > 0 ==> ports_text(labels).len() + 2 == label_offset(labels, 2, labels.len()),
        forall|i: int|
            0 <= i < labels.len() ==> ports_text(labels).subrange(
                label_offset(labels, 2, i as nat) as int,
                label_offset(labels, 2, i as nat) as int + labels[i].len(),
            ) == #[trigger] labels[i],
        forall|i: int|
            0 <= i < labels.len() - 1 ==> ports_text(labels).subrange(
                label_offset(labels, 2, i as nat) as int + #[trigger] labels[i].len(),
                label_offset(labels, 2, (i + 1) as nat) as int,
            ) == ", "@,
{
    reveal_strlit(", ");
    assert(", "@.len() == 2);
    if labels.len() > 0 {
        lemma_join_layout(labels, ", "@);
    }
}

} // verus!
