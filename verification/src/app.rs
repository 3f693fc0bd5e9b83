//! The application state: the loaded messages, the configuration, the screen shown and the
//! selected row of the message table, with the decisions that change them.
use vstd::prelude::*;

use crate::bus::can::CanMessage;
use crate::config::Config;
use crate::text::{
    chars_lt, chars_of, lemma_seq_lt_irreflexive, lemma_seq_lt_is_text_order, lemma_seq_lt_total,
    lemma_seq_lt_transitive, seq_lt, str_is, text_before,
};

verus! {

/// The screen being shown.
#[derive(Debug, Clone, Copy, PartialEq, Eq, Structural)]
pub enum ActiveScreen {
    CanBus,
    Editing,
}

/// The edit window open over the message table.
#[derive(Debug, Clone, Copy, PartialEq, Eq, Structural)]
pub enum EditWindow {
    NewCanMsg,
    EditCanMsg,
}

/// The selection state of the message table: the row that is selected, if any (the part of a
/// `ratatui` table state that the application reads and sets).
#[derive(Debug, Clone, Copy, PartialEq, Eq, Structural)]
pub struct TableState {
    pub selected: Option<usize>,
}

impl TableState {
    /// A table with no row selected.
    pub fn new() -> (s: TableState)
        ensures
            s.selected is None,
    {
        TableState { selected: None }
    }

    /// The selected row.
    pub fn selected(&self) -> (r: Option<usize>)
        ensures
            r == self.selected,
    {
        self.selected
    }

    /// Selects a row, or none.
    pub fn select(&mut self, index: Option<usize>)
        ensures
            final(self).selected == index,
    {
        self.selected = index;
    }
}

/// The application state.
pub struct App {
    pub active_screen: ActiveScreen,
    pub edit_window: Option<EditWindow>,
    pub can_messages: Vec<CanMessage>,
    pub app_config: Config,
    pub table_state: TableState,
}

/// The row selected after moving down: the next row, wrapping from the last row to the
/// first; the first row when none was selected.
pub open spec fn next_index(selected: Option<usize>, len: nat) -> usize {
    match selected {
        Some(i) => if i >= len - 1 {
            0
        } else {
            (i + 1) as usize
        },
        None => 0,
    }
}

/// The row selected after moving up: the previous row, wrapping from the first row to the
/// last; the first row when none was selected.
pub open spec fn previous_index(selected: Option<usize>, len: nat) -> usize {
    match selected {
        Some(i) => if i == 0 {
            (len - 1) as usize
        } else {
            (i - 1) as usize
        },
        None => 0,
    }
}

/// Moving the selection down needs a row to move to when one is selected.
pub open spec fn can_move_down(selected: Option<usize>, len: nat) -> bool {
    selected is Some ==> len > 0
}

/// The sort key of a message: its id, where an absent id comes first.
pub open spec fn id_key(m: CanMessage) -> Option<Seq<char>> {
    m.id.deep_view()
}

/// Order of message ids: an absent id before any present one, present ids lexicographically.
pub open spec fn id_lt(a: Option<Seq<char>>, b: Option<Seq<char>>) -> bool {
    match (a, b) {
        (None, Some(_)) => true,
        (Some(x), Some(y)) => seq_lt(x, y),
        _ => false,
    }
}

/// The messages are in order of their ids.
pub open spec fn sorted_by_id(s: Seq<CanMessage>) -> bool {
    forall|i: int, j: int| 0 <= i < j < s.len() ==> !id_lt(id_key(#[trigger] s[j]), id_key(#[trigger] s[i]))
}

/// `p` lists each index below `n` exactly once.
pub open spec fn is_index_permutation(p: Seq<int>, n: nat) -> bool {
    &&& p.len() == n
    &&& forall|k: int| 0 <= k < n ==> 0 <= #[trigger] p[k] < n
    &&& forall|k1: int, k2: int| 0 <= k1 < n && 0 <= k2 < n && k1 != k2 ==> #[trigger] p[k1] != #[trigger] p[k2]
}

/// `out` holds the messages of `inp` rearranged by `p` (`out[k]` is `inp[p[k]]`), and messages
/// with equal ids keep their relative order.
pub open spec fn stable_rearrangement(out: Seq<CanMessage>, inp: Seq<CanMessage>, p: Seq<int>) -> bool {
    &&& out.len() == inp.len()
    &&& is_index_permutation(p, inp.len())
    &&& forall|k: int| 0 <= k < out.len() ==> #[trigger] out[k] == inp[p[k]]
    &&& forall|k1: int, k2: int|
        0 <= k1 < k2 < out.len() && id_key(#[trigger] out[k1]) == id_key(#[trigger] out[k2]) ==> p[k1] < p[k2]
}

/// `out` is the stable sort of `inp` by id.
pub open spec fn stable_sort_by_id(out: Seq<CanMessage>, inp: Seq<CanMessage>) -> bool {
    &&& sorted_by_id(out)
    &&& exists|p: Seq<int>| stable_rearrangement(out, inp, p)
}

proof fn lemma_id_lt_irreflexive(a: Option<Seq<char>>)
    ensures
        !id_lt(a, a),
{
    if let Some(x) = a {
        lemma_seq_lt_irreflexive(x);
    }
}

proof fn lemma_id_lt_transitive(a: Option<Seq<char>>, b: Option<Seq<char>>, c: Option<Seq<char>>)
    requires
        id_lt(a, b),
        id_lt(b, c),
    ensures
        id_lt(a, c),
{
    if let (Some(x), Some(y), Some(z)) = (a, b, c) {
        lemma_seq_lt_transitive(x, y, z);
    }
}

proof fn lemma_id_lt_total(a: Option<Seq<char>>, b: Option<Seq<char>>)
    ensures
        a == b || id_lt(a, b) || id_lt(b, a),
{
    if let (Some(x), Some(y)) = (a, b) {
        lemma_seq_lt_total(x, y);
    }
}

/// Whether the id `a` comes strictly before the id `b`.
fn ids_lt(a: &Option<String>, b: &Option<String>) -> (r: bool)
    ensures
        r == id_lt(a.deep_view(), b.deep_view()),
{
    match (a, b) {
        (None, Some(_)) => true,
        (Some(x), Some(y)) => chars_lt(&chars_of(x.as_str()), &chars_of(y.as_str())),
        _ => false,
    }
}

/// Whether a file extension marks a YAML file (`yml` or `yaml`).
pub fn is_yaml_extension(extension: &str) -> (b: bool)
    ensures
        b == (extension@ == "yml"@ || extension@ == "yaml"@),
{
    str_is(extension, "yml") || str_is(extension, "yaml")
}

impl ActiveScreen {
    /// The key hint shown in the footer for this screen.
    pub fn key_hint(&self) -> (r: &'static str)
        ensures
            r@ == match *self {
                ActiveScreen::CanBus => "Quit[q] Nav[↑↓] New[n] Edit[e]"@,
                ActiveScreen::Editing => "Quit[q] Nav[↑↓] Select[s]"@,
            },
    {
        match self {
            ActiveScreen::CanBus => "Quit[q] Nav[↑↓] New[n] Edit[e]",
            ActiveScreen::Editing => "Quit[q] Nav[↑↓] Select[s]",
        }
    }
}

impl App {
    /// A fresh application state with the given configuration: the message screen, no edit
    /// window, no messages, and the first row selected.
    pub fn new(app_config: Config) -> (app: App)
        ensures
            app.active_screen == ActiveScreen::CanBus,
            app.edit_window is None,
            app.can_messages@.len() == 0,
            app.app_config == app_config,
            app.table_state.selected == Some(0usize),
    {
        let mut table_state = TableState::new();
        table_state.select(Some(0));
        App {
            active_screen: ActiveScreen::CanBus,
            edit_window: None,
            can_messages: Vec::new(),
            app_config,
            table_state,
        }
    }

    /// Moves the selection one row down, wrapping around to the first row.
    pub fn next_message(&mut self)
        requires
            can_move_down(old(self).table_state.selected, old(self).can_messages.len() as nat),
        ensures
            final(self).table_state.selected == Some(
                next_index(old(self).table_state.selected, old(self).can_messages.len() as nat),
            ),
            final(self).can_messages == old(self).can_messages,
            final(self).active_screen == old(self).active_screen,
            final(self).edit_window == old(self).edit_window,
            final(self).app_config == old(self).app_config,
    {
        let i = match self.table_state.selected() {
            Some(i) => {
                if i >= self.can_messages.len() - 1 {
                    0
                } else {
                    i + 1
                }
            },
            None => 0,
        };
        self.table_state.select(Some(i));
    }

    /// Moves the selection one row up, wrapping around to the last row.
    pub fn previous_message(&mut self)
        requires
            old(self).table_state.selected == Some(0usize) ==> old(self).can_messages.len() > 0,
        ensures
            final(self).table_state.selected == Some(
                previous_index(old(self).table_state.selected, old(self).can_messages.len() as nat),
            ),
            final(self).can_messages == old(self).can_messages,
            final(self).active_screen == old(self).active_screen,
            final(self).edit_window == old(self).edit_window,
            final(self).app_config == old(self).app_config,
    {
        let i = match self.table_state.selected() {
            Some(i) => {
                if i == 0 {
                    self.can_messages.len() - 1
                } else {
                    i - 1
                }
            },
            None => 0,
        };
        self.table_state.select(Some(i));
    }

    /// Takes the outcome of reading one message file while the database is loaded: a message
    /// is appended and loading goes on (`true`); an error stops loading (`false`) and leaves
    /// the messages as they are.
    pub fn receive_loaded_message(&mut self, loaded: Result<CanMessage, String>) -> (keep_going: bool)
        ensures
            keep_going == loaded is Ok,
            loaded matches Ok(m) ==> final(self).can_messages@ == old(self).can_messages@.push(m),
            loaded is Err ==> final(self).can_messages@ == old(self).can_messages@,
            final(self).table_state == old(self).table_state,
            final(self).active_screen == old(self).active_screen,
            final(self).edit_window == old(self).edit_window,
            final(self).app_config == old(self).app_config,
    {
        match loaded {
            Ok(m) => {
                self.can_messages.push(m);
                true
            },
            Err(_) => false,
        }
    }

    /// Sorts the messages by id (an absent id first), keeping messages with equal ids in
    /// their order; ends loading the database. Messages already in order stay as they are,
    /// so sorting again changes nothing.
    pub fn sort_can_messages(&mut self)
        ensures
            stable_sort_by_id(final(self).can_messages@, old(self).can_messages@),
            sorted_by_id(old(self).can_messages@) ==> final(self).can_messages@ == old(self).can_messages@,
            final(self).table_state == old(self).table_state,
            final(self).active_screen == old(self).active_screen,
            final(self).edit_window == old(self).edit_window,
            final(self).app_config == old(self).app_config,
    {
        let mut rest: Vec<CanMessage> = Vec::new();
        std::mem::swap(&mut rest, &mut self.can_messages);
        let ghost inp = rest@;
        let n = rest.len();
        let mut out: Vec<CanMessage> = Vec::new();
        let ghost mut perm: Seq<int> = Seq::empty();
        let mut i: usize = 0;
        while i < n
            invariant
                n == inp.len(),
                i <= n,
                rest@ == inp.skip(i as int),
                out@.len() == i,
                sorted_by_id(out@),
                stable_rearrangement(out@, inp.take(i as int), perm),
                sorted_by_id(inp) ==> out@ == inp.take(i as int),
            decreases n - i,
        {
            assert(rest@.len() == n - i);
            let x = rest.remove(0);
            assert(x == inp[i as int]);
            assert(rest@ =~= inp.skip(i + 1));
            // position: after every message whose id is not greater than x's
            let mut j: usize = 0;
            while j < out.len() && !ids_lt(&x.id, &out[j].id)
                invariant
                    j <= out@.len(),
                    forall|k: int| 0 <= k < j ==> !id_lt(id_key(x), id_key(#[trigger] out@[k])),
                decreases out@.len() - j,
            {
                j = j + 1;
            }
            let ghost old_out = out@;
            let ghost old_perm = perm;
            proof {
                if sorted_by_id(inp) && j < old_out.len() {
                    assert(old_out[j as int] == inp[j as int]);
                    assert(!id_lt(id_key(inp[i as int]), id_key(inp[j as int])));
                }
            }
            proof {
                // every message from j on has a greater id than x
                assert forall|k: int| j <= k < old_out.len() implies id_lt(
                    id_key(x),
                    id_key(#[trigger] old_out[k]),
                ) by {
                    assert(id_lt(id_key(x), id_key(old_out[j as int])));
                    if k > j {
                        assert(!id_lt(id_key(old_out[k]), id_key(old_out[j as int])));
                        lemma_id_lt_total(id_key(old_out[j as int]), id_key(old_out[k]));
                        if id_key(old_out[j as int]) != id_key(old_out[k]) {
                            lemma_id_lt_transitive(id_key(x), id_key(old_out[j as int]), id_key(old_out[k]));
                        }
                    }
                }
            }
            out.insert(j, x);
            proof {
                perm = old_perm.insert(j as int, i as int);
                let inp_next = inp.take(i + 1);
                assert(inp_next[i as int] == x);
                assert forall|k: int| 0 <= k < inp.take(i as int).len() implies #[trigger] inp_next[k] == inp.take(i as int)[k] by {}
                // out is sorted
                assert forall|a: int, b: int| 0 <= a < b < out@.len() implies !id_lt(
                    id_key(#[trigger] out@[b]),
                    id_key(#[trigger] out@[a]),
                ) by {
                    if a < j && b == j {
                        lemma_id_lt_total(id_key(x), id_key(old_out[a]));
                    } else if a == j && b > j {
                        assert(out@[b] == old_out[b - 1]);
                        assert(id_lt(id_key(x), id_key(old_out[b - 1])));
                        if id_lt(id_key(old_out[b - 1]), id_key(x)) {
                            lemma_id_lt_transitive(id_key(x), id_key(old_out[b - 1]), id_key(x));
                            lemma_id_lt_irreflexive(id_key(x));
                        }
                    } else if a < j && b > j {
                        assert(out@[b] == old_out[b - 1]);
                        assert(out@[a] == old_out[a]);
                    } else if a > j {
                        assert(out@[b] == old_out[b - 1]);
                        assert(out@[a] == old_out[a - 1]);
                    } else {
                        assert(out@[b] == old_out[b]);
                        assert(out@[a] == old_out[a]);
                    }
                }
                // out is a stable rearrangement of the first i + 1 messages
                assert(is_index_permutation(perm, (i + 1) as nat)) by {
                    assert forall|k: int| 0 <= k < i + 1 implies 0 <= #[trigger] perm[k] < i + 1 by {
                        if k < j {
                            assert(perm[k] == old_perm[k]);
                        } else if k > j {
                            assert(perm[k] == old_perm[k - 1]);
                        }
                    }
                    assert forall|k1: int, k2: int|
                        0 <= k1 < i + 1 && 0 <= k2 < i + 1 && k1 != k2 implies #[trigger] perm[k1]
                        != #[trigger] perm[k2] by {
                        let o1 = if k1 < j { k1 } else { k1 - 1 };
                        let o2 = if k2 < j { k2 } else { k2 - 1 };
                        if k1 != j && k2 != j {
                            assert(perm[k1] == old_perm[o1]);
                            assert(perm[k2] == old_perm[o2]);
                        } else if k1 == j {
                            assert(perm[k2] == old_perm[o2]);
                        } else {
                            assert(perm[k1] == old_perm[o1]);
                        }
                    }
                }
                assert forall|k: int| 0 <= k < out@.len() implies #[trigger] out@[k] == inp_next[perm[k]] by {
                    if k < j {
                        assert(perm[k] == old_perm[k]);
                        assert(out@[k] == old_out[k]);
                    } else if k > j {
                        assert(perm[k] == old_perm[k - 1]);
                        assert(out@[k] == old_out[k - 1]);
                    }
                }
                assert forall|k1: int, k2: int|
                    0 <= k1 < k2 < out@.len() && id_key(#[trigger] out@[k1]) == id_key(
                        #[trigger] out@[k2],
                    ) implies perm[k1] < perm[k2] by {
                    if k2 == j {
                        assert(perm[k1] == old_perm[k1]);
                    } else if k1 == j {
                        assert(out@[k2] == old_out[k2 - 1]);
                        assert(id_lt(id_key(x), id_key(old_out[k2 - 1])));
                        lemma_id_lt_irreflexive(id_key(x));
                    } else {
                        let o1 = if k1 < j { k1 } else { k1 - 1 };
                        let o2 = if k2 < j { k2 } else { k2 - 1 };
                        assert(perm[k1] == old_perm[o1]);
                        assert(perm[k2] == old_perm[o2]);
                        assert(out@[k1] == old_out[o1]);
                        assert(out@[k2] == old_out[o2]);
                    }
                }
                assert(stable_rearrangement(out@, inp_next, perm));
                if sorted_by_id(inp) {
                    assert(out@ =~= inp_next);
                }
            }
            i = i + 1;
        }
        assert(inp.take(n as int) =~= inp);
        assert(stable_rearrangement(out@, inp, perm));
        self.can_messages = out;
    }
}

/// Moving down and then up returns to the row that was selected.
pub proof fn lemma_next_then_previous(i: usize, len: nat)
    requires
        i < len,
        len <= usize::MAX,
    ensures
        previous_index(Some(next_index(Some(i), len)), len) == i,
{
}

/// Moving up and then down returns to the row that was selected.
pub proof fn lemma_previous_then_next(i: usize, len: nat)
    requires
        i < len,
        len <= usize::MAX,
    ensures
        next_index(Some(previous_index(Some(i), len)), len) == i,
{
}

/// Moving the selection up or down, from any row or from no row, selects a row of a
/// non-empty table.
pub proof fn lemma_moves_stay_in_table(selected: Option<usize>, len: nat)
    requires
        len > 0,
        len <= usize::MAX,
        selected matches Some(i) ==> i < len,
    ensures
        next_index(selected, len) < len,
        previous_index(selected, len) < len,
{
}

/// The order messages are sorted in: a message without id comes before any with one, and two
/// ids are in text order (at the first differing character the smaller code point first, a
/// proper prefix first).
pub proof fn lemma_id_order(x: Seq<char>, y: Seq<char>)
    ensures
        id_lt(None, Some(y)),
        !id_lt(Some(x), None),
        !id_lt(None, None),
        id_lt(Some(x), Some(y)) == text_before(x, y),
{
    lemma_seq_lt_is_text_order(x, y);
}

/// Moving down selects the next row, and from the last row (or beyond) the first; moving up
/// selects the previous row, and from the first row the last; with no row selected, either
/// move selects the first row.
pub proof fn lemma_move_steps(i: usize, len: nat)
    requires
        len <= usize::MAX,
    ensures
        i + 1 < len ==> next_index(Some(i), len) == i + 1,
        i + 1 >= len && len > 0 ==> next_index(Some(i), len) == 0,
        i > 0 ==> previous_index(Some(i), len) == i - 1,
        len > 0 ==> previous_index(Some(0usize), len) == len - 1,
        next_index(None, len) == 0,
        previous_index(None, len) == 0,
{
}

} // verus!
