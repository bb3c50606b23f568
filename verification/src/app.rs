//! The interactive core: profile list, selection model, recency tracking,
//! and the modal state machine that interprets logical input actions.
//!
//! Everything here is pure state manipulation. Reading keystrokes, painting
//! the screen, persisting files and spawning the external client programs
//! are performed by the surrounding binary, driven by the [`Effect`] values
//! this module hands back.

use vstd::prelude::*;
use vstd::string::StringExecFns;

use crate::codec::dec_doc;
use crate::codec::dec_recent;
use crate::codec::parse_recent;
use crate::codec::parse_servers;
use crate::server::Server;
use crate::server::ServerV;
use crate::server::copy_id_args_of;
use crate::server::key_of;
use crate::server::mosh_args_of;
use crate::server::server_valid;
use crate::server::sftp_args_of;
use crate::server::ssh_args_of;
use crate::server::strs;
use crate::server::views;

verus! {

// ---------------------------------------------------------------------------
// Form drafts
// ---------------------------------------------------------------------------

/// Mathematical view of an in-progress form: the five editable fields plus
/// the cursor telling which of them receives character input.
pub ghost struct DraftV {
    pub field_idx: int,
    pub name: Seq<char>,
    pub user: Seq<char>,
    pub host: Seq<char>,
    pub port: Seq<char>,
    pub jump_host: Seq<char>,
}

/// Number of editable fields in a form draft; `field_idx` stays below it.
pub open spec fn field_count() -> int {
    5
}

pub open spec fn draft_wf(d: DraftV) -> bool {
    0 <= d.field_idx < field_count()
}

/// The draft a Begin-Add transition opens: everything blank except the
/// port, which starts at the default `22`.
pub open spec fn blank_draft() -> DraftV {
    DraftV {
        field_idx: 0,
        name: Seq::empty(),
        user: Seq::empty(),
        host: Seq::empty(),
        port: "22"@,
        jump_host: Seq::empty(),
    }
}

/// The draft a Begin-Edit transition opens: a working copy of the chosen
/// profile with the cursor on the first field.
pub open spec fn draft_of(v: ServerV) -> DraftV {
    DraftV {
        field_idx: 0,
        name: v.name,
        user: v.user,
        host: v.host,
        port: v.port,
        jump_host: v.jump_host,
    }
}

/// Transient working copy of the editable fields while a new profile is
/// being entered.
pub struct AddingState {
    pub field_idx: usize,
    pub name: String,
    pub user: String,
    pub host: String,
    pub port: String,
    pub jump_host: String,
}

impl View for AddingState {
    type V = DraftV;

    open spec fn view(&self) -> DraftV {
        DraftV {
            field_idx: self.field_idx as int,
            name: self.name@,
            user: self.user@,
            host: self.host@,
            port: self.port@,
            jump_host: self.jump_host@,
        }
    }
}

impl AddingState {
    /// A blank draft with the default port.
    pub fn new() -> (r: Self)
        ensures
            r@ == blank_draft(),
    {
        Self {
            field_idx: 0,
            name: String::new(),
            user: String::new(),
            host: String::new(),
            port: String::from_str("22"),
            jump_host: String::new(),
        }
    }
}

/// Transient working copy of an existing profile's fields while it is
/// being edited in place; remembers which list slot the result replaces.
pub struct EditingState {
    pub server_index: usize,
    pub field_idx: usize,
    pub name: String,
    pub user: String,
    pub host: String,
    pub port: String,
    pub jump_host: String,
}

impl View for EditingState {
    type V = DraftV;

    open spec fn view(&self) -> DraftV {
        DraftV {
            field_idx: self.field_idx as int,
            name: self.name@,
            user: self.user@,
            host: self.host@,
            port: self.port@,
            jump_host: self.jump_host@,
        }
    }
}

impl EditingState {
    /// A draft pre-filled from the profile at `index`.
    pub fn new(server: &Server, index: usize) -> (r: Self)
        ensures
            r@ == draft_of(server@),
            r.server_index == index,
    {
        Self {
            server_index: index,
            field_idx: 0,
            name: server.name.clone(),
            user: server.user.clone(),
            host: server.host.clone(),
            port: server.port.clone(),
            jump_host: server.jump_host.clone(),
        }
    }
}

// ---------------------------------------------------------------------------
// Modes
// ---------------------------------------------------------------------------

/// Mathematical view of the modal state.
pub ghost enum ModeV {
    Normal,
    Adding(DraftV),
    Editing(DraftV, int),
    ConfirmDelete(int),
    ShowMessage(Seq<char>),
}

/// The modal state of the interaction loop. `Normal` is the initial state
/// and the state reached after every commit, cancel, confirm or dismiss.
pub enum InputMode {
    Normal,
    Adding(AddingState),
    Editing(EditingState),
    ConfirmDelete(usize),
    ShowMessage(String),
}

impl View for InputMode {
    type V = ModeV;

    open spec fn view(&self) -> ModeV {
        match self {
            InputMode::Normal => ModeV::Normal,
            InputMode::Adding(st) => ModeV::Adding(st@),
            InputMode::Editing(st) => ModeV::Editing(st@, st.server_index as int),
            InputMode::ConfirmDelete(idx) => ModeV::ConfirmDelete(*idx as int),
            InputMode::ShowMessage(text) => ModeV::ShowMessage(text@),
        }
    }
}

// ---------------------------------------------------------------------------
// Logical input actions and effects
// ---------------------------------------------------------------------------

/// The logical keyboard surface. The binding from physical keys to these
/// actions lives outside the core and depends on the active mode.
pub enum InputAction {
    Quit,
    MoveNext,
    MovePrevious,
    JumpFirst,
    JumpLast,
    BeginAdd,
    BeginEdit,
    BeginDelete,
    ConnectSecureShell,
    ConnectMobileShell,
    ConnectFileTransfer,
    ConnectCopyId,
    FieldChar(char),
    FieldBackspace,
    FieldAdvance,
    FieldRetreat,
    Commit,
    Cancel,
    ConfirmYes,
    ConfirmNo,
    DismissMessage,
}

/// The four external client programs a profile can be handed to.
#[derive(Clone, Copy)]
pub enum ConnectKind {
    SecureShell,
    MobileShell,
    FileTransfer,
    CopyId,
}

/// Mathematical view of an instruction to the surrounding binary.
pub ghost enum EffectV {
    Nothing,
    PersistServers,
    Launch { program: Seq<char>, args: Seq<Seq<char>>, save_recency: bool, save_servers: bool },
    Quit,
}

/// A request to run one external client program, produced by a connect
/// action. `save_recency` asks for the recency record to be persisted
/// before the launch; `save_servers` additionally asks for the profile
/// list, set exactly when recency promotion reordered it.
pub struct LaunchPlan {
    pub program: String,
    pub args: Vec<String>,
    pub save_recency: bool,
    pub save_servers: bool,
}

/// What the surrounding binary must do after a step of the state machine:
/// nothing, persist the profile list, launch an external client, or leave
/// the interaction loop.
pub enum Effect {
    Nothing,
    PersistServers,
    Launch(LaunchPlan),
    Quit,
}

impl View for Effect {
    type V = EffectV;

    open spec fn view(&self) -> EffectV {
        match self {
            Effect::Nothing => EffectV::Nothing,
            Effect::PersistServers => EffectV::PersistServers,
            Effect::Launch(p) => EffectV::Launch {
                program: p.program@,
                args: strs(p.args@),
                save_recency: p.save_recency,
                save_servers: p.save_servers,
            },
            Effect::Quit => EffectV::Quit,
        }
    }
}

// ---------------------------------------------------------------------------
// The aggregate state
// ---------------------------------------------------------------------------

/// Mathematical view of the whole interactive state.
pub ghost struct AppV {
    pub servers: Seq<ServerV>,
    pub selected: Option<int>,
    pub mode: ModeV,
    pub recent_key: Option<Seq<char>>,
}

/// The owned aggregate the interaction loop mutates: profile list,
/// selection, modal state, and the identity key of the most recently used
/// profile.
pub struct App {
    pub servers: Vec<Server>,
    pub selected: Option<usize>,
    pub input_mode: InputMode,
    pub recent_key: Option<String>,
}

pub open spec fn sel_view(s: Option<usize>) -> Option<int> {
    match s {
        Some(i) => Some(i as int),
        None => None,
    }
}

impl View for App {
    type V = AppV;

    open spec fn view(&self) -> AppV {
        AppV {
            servers: views(self.servers@),
            selected: sel_view(self.selected),
            mode: self.input_mode@,
            recent_key: match self.recent_key {
                Some(ref k) => Some(k@),
                None => None,
            },
        }
    }
}

/// The selection is `None` exactly on an empty list and in bounds
/// otherwise.
pub open spec fn selection_ok(sel: Option<int>, len: int) -> bool {
    match sel {
        None => len == 0,
        Some(i) => 0 <= i < len,
    }
}

/// Well-formedness of the aggregate state: every stored profile carries a
/// non-empty name and host, the selection is consistent with the list, a
/// form cursor stays on a real field, and an edit targets an existing
/// slot.
pub open spec fn app_wf(v: AppV) -> bool {
    &&& selection_ok(v.selected, v.servers.len() as int)
    &&& forall|i: int| 0 <= i < v.servers.len() ==> server_valid(#[trigger] v.servers[i])
    &&& match v.mode {
        ModeV::Normal => true,
        ModeV::Adding(d) => draft_wf(d),
        ModeV::Editing(d, idx) => draft_wf(d) && 0 <= idx < v.servers.len(),
        ModeV::ConfirmDelete(_) => true,
        ModeV::ShowMessage(_) => true,
    }
}

// ---------------------------------------------------------------------------
// Selection model
// ---------------------------------------------------------------------------

/// Wrap-around move one step down the list; no-op on an empty list.
pub open spec fn next_sel(sel: Option<int>, len: int) -> Option<int> {
    if len == 0 {
        sel
    } else {
        match sel {
            None => Some(0int),
            Some(i) => if i >= len - 1 {
                Some(0int)
            } else {
                Some(i + 1)
            },
        }
    }
}

/// Wrap-around move one step up the list; no-op on an empty list.
pub open spec fn prev_sel(sel: Option<int>, len: int) -> Option<int> {
    if len == 0 {
        sel
    } else {
        match sel {
            None => Some(0int),
            Some(i) => if i == 0 {
                Some(len - 1)
            } else {
                Some(i - 1)
            },
        }
    }
}

/// Jump to the first entry; no-op on an empty list.
pub open spec fn first_sel(sel: Option<int>, len: int) -> Option<int> {
    if len == 0 {
        sel
    } else {
        Some(0int)
    }
}

/// Jump to the last entry; no-op on an empty list.
pub open spec fn last_sel(sel: Option<int>, len: int) -> Option<int> {
    if len == 0 {
        sel
    } else {
        Some(len - 1)
    }
}

/// Selection repair after removing the entry at `removed` from a list
/// that now has `new_len` entries: an empty list clears the selection,
/// removing the old last entry steps back to the new last, and otherwise
/// the index is kept and now denotes the entry that shifted into the
/// vacated slot.
pub open spec fn repaired_sel(removed: int, new_len: int) -> Option<int> {
    if new_len == 0 {
        None
    } else if removed >= new_len {
        Some(new_len - 1)
    } else {
        Some(removed)
    }
}

impl App {
    /// Move the selection one step down, wrapping at the end.
    pub fn next(&mut self)
        requires
            app_wf(old(self)@),
        ensures
            final(self)@ == (AppV {
                selected: next_sel(old(self)@.selected, old(self)@.servers.len() as int),
                ..old(self)@
            }),
            app_wf(final(self)@),
    {
        if self.servers.len() == 0 {
            return ;
        }
        let i: usize = match self.selected {
            Some(i) => if i >= self.servers.len() - 1 {
                0
            } else {
                i + 1
            },
            None => 0,
        };
        self.selected = Some(i);
    }

    /// Move the selection one step up, wrapping at the start.
    pub fn previous(&mut self)
        requires
            app_wf(old(self)@),
        ensures
            final(self)@ == (AppV {
                selected: prev_sel(old(self)@.selected, old(self)@.servers.len() as int),
                ..old(self)@
            }),
            app_wf(final(self)@),
    {
        if self.servers.len() == 0 {
            return ;
        }
        let i: usize = match self.selected {
            Some(i) => if i == 0 {
                self.servers.len() - 1
            } else {
                i - 1
            },
            None => 0,
        };
        self.selected = Some(i);
    }

    /// Jump the selection to the first entry.
    pub fn select_first(&mut self)
        requires
            app_wf(old(self)@),
        ensures
            final(self)@ == (AppV {
                selected: first_sel(old(self)@.selected, old(self)@.servers.len() as int),
                ..old(self)@
            }),
            app_wf(final(self)@),
    {
        if self.servers.len() > 0 {
            self.selected = Some(0);
        }
    }

    /// Jump the selection to the last entry.
    pub fn select_last(&mut self)
        requires
            app_wf(old(self)@),
        ensures
            final(self)@ == (AppV {
                selected: last_sel(old(self)@.selected, old(self)@.servers.len() as int),
                ..old(self)@
            }),
            app_wf(final(self)@),
    {
        if self.servers.len() > 0 {
            self.selected = Some(self.servers.len() - 1);
        }
    }
}

// ---------------------------------------------------------------------------
// Recency promotion
// ---------------------------------------------------------------------------

/// Some profile in `l` has identity key `key`.
pub open spec fn has_key(l: Seq<ServerV>, key: Seq<char>) -> bool {
    exists|j: int| 0 <= j < l.len() && key_of(l[j]) == key
}

/// The position of the first profile in `l` whose identity key is `key`.
pub open spec fn least_key_index(l: Seq<ServerV>, key: Seq<char>) -> int {
    choose|j: int|
        0 <= j < l.len() && key_of(l[j]) == key && (forall|k: int|
            0 <= k < j ==> key_of(#[trigger] l[k]) != key)
}

/// Recency promotion: when the first profile matching `key` sits at a
/// position past the front, move it to the front; otherwise leave the
/// list alone. The second component reports whether a move occurred.
pub open spec fn promote_spec(l: Seq<ServerV>, key: Seq<char>) -> (Seq<ServerV>, bool) {
    if has_key(l, key) {
        let p = least_key_index(l, key);
        if p > 0 {
            (seq![l[p]] + l.remove(p), true)
        } else {
            (l, false)
        }
    } else {
        (l, false)
    }
}

/// Below any matching position there is a least one.
proof fn lemma_exists_least_match(l: Seq<ServerV>, key: Seq<char>, w: int)
    requires
        0 <= w < l.len(),
        key_of(l[w]) == key,
    ensures
        exists|j: int|
            0 <= j < l.len() && key_of(#[trigger] l[j]) == key && (forall|k: int|
                0 <= k < j ==> key_of(#[trigger] l[k]) != key),
    decreases w,
{
    if forall|k: int| 0 <= k < w ==> key_of(#[trigger] l[k]) != key {
        assert(0 <= w < l.len() && key_of(l[w]) == key && (forall|k: int|
            0 <= k < w ==> key_of(#[trigger] l[k]) != key));
    } else {
        let k = choose|k: int| 0 <= k < w && key_of(#[trigger] l[k]) == key;
        lemma_exists_least_match(l, key, k);
    }
}

/// On a list that holds `key` somewhere, `least_key_index` denotes an
/// in-bounds match with no match before it.
proof fn lemma_least_key_props(l: Seq<ServerV>, key: Seq<char>)
    requires
        has_key(l, key),
    ensures
        ({
            let p = least_key_index(l, key);
            &&& 0 <= p < l.len()
            &&& key_of(l[p]) == key
            &&& forall|k: int| 0 <= k < p ==> key_of(#[trigger] l[k]) != key
        }),
{
    let w = choose|j: int| 0 <= j < l.len() && key_of(#[trigger] l[j]) == key;
    lemma_exists_least_match(l, key, w);
}

/// A position that matches `key` with no match before it is the least
/// matching position.
proof fn lemma_least_key_at(l: Seq<ServerV>, key: Seq<char>, i: int)
    requires
        0 <= i < l.len(),
        key_of(l[i]) == key,
        forall|k: int| 0 <= k < i ==> key_of(#[trigger] l[k]) != key,
    ensures
        has_key(l, key),
        least_key_index(l, key) == i,
{
    assert(has_key(l, key));
    let j = least_key_index(l, key);
    assert(0 <= j < l.len() && key_of(l[j]) == key && (forall|k: int|
        0 <= k < j ==> key_of(#[trigger] l[k]) != key));
    if j < i {
        assert(key_of(l[j]) != key);
    }
    if i < j {
        assert(key_of(l[i]) != key);
    }
}

/// The position of the first profile whose identity key is `key`, or
/// `None` when no profile matches.
pub fn find_key(servers: &Vec<Server>, key: &String) -> (r: Option<usize>)
    ensures
        match r {
            Some(i) => {
                let l = views(servers@);
                &&& 0 <= i < l.len()
                &&& key_of(l[i as int]) == key@
                &&& forall|k: int| 0 <= k < i ==> key_of(#[trigger] l[k]) != key@
            },
            None => !has_key(views(servers@), key@),
        },
{
    let ghost l = views(servers@);
    let mut p: usize = 0;
    while p < servers.len()
        invariant
            0 <= p <= servers.len(),
            l == views(servers@),
            forall|k: int| 0 <= k < p ==> key_of(#[trigger] l[k]) != key@,
        decreases servers.len() - p,
    {
        let k = servers[p].identity_key();
        if k == *key {
            return Some(p);
        }
        p += 1;
    }
    proof {
        assert(forall|j: int| 0 <= j < l.len() ==> key_of(#[trigger] l[j]) != key@);
    }
    None
}

/// Move the first profile whose identity key is `key` to the front of
/// the list, as `promote_spec` describes; report whether anything moved.
pub fn promote(servers: &mut Vec<Server>, key: &String) -> (moved: bool)
    ensures
        ({
            let (l2, m) = promote_spec(views(old(servers)@), key@);
            views(final(servers)@) == l2 && moved == m
        }),
{
    let ghost l = views(servers@);
    let found = find_key(servers, key);
    match found {
        Some(p) => {
            proof {
                lemma_least_key_at(l, key@, p as int);
            }
            if p > 0 {
                let s = servers.remove(p);
                servers.insert(0, s);
                proof {
                    assert(views(servers@) =~~= seq![l[p as int]] + l.remove(p as int));
                }
                true
            } else {
                false
            }
        },
        None => false,
    }
}

/// Promotion never changes the length of the list, and keeps every
/// profile valid when all of them were.
pub proof fn lemma_promote_preserves(l: Seq<ServerV>, key: Seq<char>)
    ensures
        promote_spec(l, key).0.len() == l.len(),
        (forall|i: int| 0 <= i < l.len() ==> server_valid(#[trigger] l[i])) ==> (forall|i: int|
            0 <= i < promote_spec(l, key).0.len() ==> server_valid(
                #[trigger] promote_spec(l, key).0[i],
            )),
{
    if has_key(l, key) {
        lemma_least_key_props(l, key);
        let p = least_key_index(l, key);
        if 0 < p < l.len() {
            let l2 = seq![l[p]] + l.remove(p);
            assert(l2.len() == l.len());
            if forall|i: int| 0 <= i < l.len() ==> server_valid(#[trigger] l[i]) {
                assert forall|i: int| 0 <= i < l2.len() implies server_valid(
                    #[trigger] l2[i],
                ) by {
                    if i == 0 {
                        assert(l2[0] == l[p]);
                    } else if i <= p {
                        assert(l2[i] == l[i - 1]);
                    } else {
                        assert(l2[i] == l[i]);
                    }
                }
            }
        }
    }
}

// ---------------------------------------------------------------------------
// Deletion
// ---------------------------------------------------------------------------

/// The state after removing the profile at `idx` and repairing the
/// selection.
pub open spec fn deleted_at(v: AppV, idx: int) -> AppV {
    let l2 = v.servers.remove(idx);
    AppV { servers: l2, selected: repaired_sel(idx, l2.len() as int), ..v }
}

impl App {
    /// Remove the selected profile, if any, and repair the selection: the
    /// selection never ends past the new end of the list, and clears
    /// exactly when the last remaining profile went away. The caller is
    /// responsible for persisting the shrunk list.
    pub fn delete_current(&mut self)
        requires
            app_wf(old(self)@),
            !(old(self)@.mode is Editing),
        ensures
            app_wf(final(self)@),
            final(self)@ == match old(self)@.selected {
                Some(i) => deleted_at(old(self)@, i),
                None => old(self)@,
            },
    {
        if let Some(i) = self.selected {
            if i < self.servers.len() {
                self.servers.remove(i);
                if self.servers.len() == 0 {
                    self.selected = None;
                } else if i >= self.servers.len() {
                    self.selected = Some(self.servers.len() - 1);
                }
                proof {
                    let l = old(self)@.servers;
                    let l2 = l.remove(i as int);
                    assert(views(self.servers@) =~~= l2);
                    assert forall|j: int| 0 <= j < l2.len() implies server_valid(
                        #[trigger] l2[j],
                    ) by {
                        if j < i as int {
                            assert(l2[j] == l[j]);
                        } else {
                            assert(l2[j] == l[j + 1]);
                        }
                    }
                }
            }
        }
    }
}

// ---------------------------------------------------------------------------
// Form editing and commit
// ---------------------------------------------------------------------------

/// A string with its last character removed; the empty string is kept.
pub open spec fn chopped(s: Seq<char>) -> Seq<char> {
    if s.len() == 0 {
        s
    } else {
        s.drop_last()
    }
}

/// Append `c` to the field under the cursor; a cursor outside the field
/// range swallows the input.
pub open spec fn draft_char(d: DraftV, c: char) -> DraftV {
    if d.field_idx == 0 {
        DraftV { name: d.name.push(c), ..d }
    } else if d.field_idx == 1 {
        DraftV { user: d.user.push(c), ..d }
    } else if d.field_idx == 2 {
        DraftV { host: d.host.push(c), ..d }
    } else if d.field_idx == 3 {
        DraftV { port: d.port.push(c), ..d }
    } else if d.field_idx == 4 {
        DraftV { jump_host: d.jump_host.push(c), ..d }
    } else {
        d
    }
}

/// Remove the last character of the field under the cursor; an empty
/// field and a cursor outside the field range swallow the input.
pub open spec fn draft_backspace(d: DraftV) -> DraftV {
    if d.field_idx == 0 {
        DraftV { name: chopped(d.name), ..d }
    } else if d.field_idx == 1 {
        DraftV { user: chopped(d.user), ..d }
    } else if d.field_idx == 2 {
        DraftV { host: chopped(d.host), ..d }
    } else if d.field_idx == 3 {
        DraftV { port: chopped(d.port), ..d }
    } else if d.field_idx == 4 {
        DraftV { jump_host: chopped(d.jump_host), ..d }
    } else {
        d
    }
}

/// Move the cursor to the next field, wrapping past the last back to the
/// first.
pub open spec fn draft_advance(d: DraftV) -> DraftV {
    DraftV {
        field_idx: if d.field_idx < field_count() - 1 {
            d.field_idx + 1
        } else {
            0
        },
        ..d
    }
}

/// Move the cursor to the previous field, wrapping past the first to the
/// last.
pub open spec fn draft_retreat(d: DraftV) -> DraftV {
    DraftV {
        field_idx: if d.field_idx > 0 {
            d.field_idx - 1
        } else {
            field_count() - 1
        },
        ..d
    }
}

/// A draft commits only when the name and the host are non-empty,
/// exactly as typed.
pub open spec fn draft_commit_ok(d: DraftV) -> bool {
    d.name.len() > 0 && d.host.len() > 0
}

/// The profile a valid draft commits to: a blank user defaults to `root`,
/// a blank port to `22`, and the relay passes through verbatim.
pub open spec fn committed_server(d: DraftV) -> ServerV {
    ServerV {
        name: d.name,
        user: if d.user.len() == 0 {
            "root"@
        } else {
            d.user
        },
        host: d.host,
        port: if d.port.len() == 0 {
            "22"@
        } else {
            d.port
        },
        jump_host: d.jump_host,
    }
}

// ---------------------------------------------------------------------------
// The transition relation
// ---------------------------------------------------------------------------

/// The fixed name of the client program for each connect action.
pub open spec fn program_for(k: ConnectKind) -> Seq<char> {
    match k {
        ConnectKind::SecureShell => "ssh"@,
        ConnectKind::MobileShell => "mosh"@,
        ConnectKind::FileTransfer => "sftp"@,
        ConnectKind::CopyId => "ssh-copy-id"@,
    }
}

/// The argument vector for handing profile `v` to client `k`.
pub open spec fn args_for(k: ConnectKind, v: ServerV) -> Seq<Seq<char>> {
    match k {
        ConnectKind::SecureShell => ssh_args_of(v),
        ConnectKind::MobileShell => mosh_args_of(v),
        ConnectKind::FileTransfer => sftp_args_of(v),
        ConnectKind::CopyId => copy_id_args_of(v),
    }
}

/// The live connection actions update and persist the recency record;
/// copying a key does not.
pub open spec fn is_live(k: ConnectKind) -> bool {
    !(k is CopyId)
}

/// A connect action from the normal mode: without a selection nothing
/// happens; otherwise the argument vector is computed for the selected
/// profile and handed out. A live connection additionally records that
/// profile's identity key and promotes it to the front of the list, the
/// selection following it there.
pub open spec fn connect_step(pre: AppV, k: ConnectKind) -> (AppV, EffectV) {
    match pre.selected {
        None => (pre, EffectV::Nothing),
        Some(i) => {
            let v = pre.servers[i];
            if is_live(k) {
                let key = key_of(v);
                let (l2, moved) = promote_spec(pre.servers, key);
                let sel2 = if moved {
                    Some(0int)
                } else {
                    pre.selected
                };
                (
                    AppV { servers: l2, selected: sel2, recent_key: Some(key), ..pre },
                    EffectV::Launch {
                        program: program_for(k),
                        args: args_for(k, v),
                        save_recency: true,
                        save_servers: moved,
                    },
                )
            } else {
                (
                    pre,
                    EffectV::Launch {
                        program: program_for(k),
                        args: args_for(k, v),
                        save_recency: false,
                        save_servers: false,
                    },
                )
            }
        },
    }
}

/// Transitions out of the normal mode.
pub open spec fn step_normal(pre: AppV, a: InputAction) -> (AppV, EffectV) {
    let len = pre.servers.len() as int;
    match a {
        InputAction::Quit => (pre, EffectV::Quit),
        InputAction::MoveNext => (
            AppV { selected: next_sel(pre.selected, len), ..pre },
            EffectV::Nothing,
        ),
        InputAction::MovePrevious => (
            AppV { selected: prev_sel(pre.selected, len), ..pre },
            EffectV::Nothing,
        ),
        InputAction::JumpFirst => (
            AppV { selected: first_sel(pre.selected, len), ..pre },
            EffectV::Nothing,
        ),
        InputAction::JumpLast => (
            AppV { selected: last_sel(pre.selected, len), ..pre },
            EffectV::Nothing,
        ),
        InputAction::BeginAdd => (
            AppV { mode: ModeV::Adding(blank_draft()), ..pre },
            EffectV::Nothing,
        ),
        InputAction::BeginEdit => match pre.selected {
            Some(i) => (
                AppV { mode: ModeV::Editing(draft_of(pre.servers[i]), i), ..pre },
                EffectV::Nothing,
            ),
            None => (pre, EffectV::Nothing),
        },
        InputAction::BeginDelete => match pre.selected {
            Some(i) => (AppV { mode: ModeV::ConfirmDelete(i), ..pre }, EffectV::Nothing),
            None => (pre, EffectV::Nothing),
        },
        InputAction::ConnectSecureShell => connect_step(pre, ConnectKind::SecureShell),
        InputAction::ConnectMobileShell => connect_step(pre, ConnectKind::MobileShell),
        InputAction::ConnectFileTransfer => connect_step(pre, ConnectKind::FileTransfer),
        InputAction::ConnectCopyId => connect_step(pre, ConnectKind::CopyId),
        _ => (pre, EffectV::Nothing),
    }
}

/// Transitions out of the adding mode: field edits stay in the form,
/// cancel discards it, and a valid commit appends the new profile,
/// selects it, and asks for the list to be persisted. An invalid commit
/// changes nothing.
pub open spec fn step_adding(pre: AppV, d: DraftV, a: InputAction) -> (AppV, EffectV) {
    match a {
        InputAction::FieldChar(c) => (
            AppV { mode: ModeV::Adding(draft_char(d, c)), ..pre },
            EffectV::Nothing,
        ),
        InputAction::FieldBackspace => (
            AppV { mode: ModeV::Adding(draft_backspace(d)), ..pre },
            EffectV::Nothing,
        ),
        InputAction::FieldAdvance => (
            AppV { mode: ModeV::Adding(draft_advance(d)), ..pre },
            EffectV::Nothing,
        ),
        InputAction::FieldRetreat => (
            AppV { mode: ModeV::Adding(draft_retreat(d)), ..pre },
            EffectV::Nothing,
        ),
        InputAction::Cancel => (AppV { mode: ModeV::Normal, ..pre }, EffectV::Nothing),
        InputAction::Commit => if draft_commit_ok(d) {
            (
                AppV {
                    servers: pre.servers.push(committed_server(d)),
                    selected: Some(pre.servers.len() as int),
                    mode: ModeV::Normal,
                    ..pre
                },
                EffectV::PersistServers,
            )
        } else {
            (pre, EffectV::Nothing)
        },
        _ => (pre, EffectV::Nothing),
    }
}

/// Transitions out of the editing mode: identical to adding except that
/// a valid commit replaces the profile at the edited slot and leaves the
/// selection alone.
pub open spec fn step_editing(pre: AppV, d: DraftV, idx: int, a: InputAction) -> (AppV, EffectV) {
    match a {
        InputAction::FieldChar(c) => (
            AppV { mode: ModeV::Editing(draft_char(d, c), idx), ..pre },
            EffectV::Nothing,
        ),
        InputAction::FieldBackspace => (
            AppV { mode: ModeV::Editing(draft_backspace(d), idx), ..pre },
            EffectV::Nothing,
        ),
        InputAction::FieldAdvance => (
            AppV { mode: ModeV::Editing(draft_advance(d), idx), ..pre },
            EffectV::Nothing,
        ),
        InputAction::FieldRetreat => (
            AppV { mode: ModeV::Editing(draft_retreat(d), idx), ..pre },
            EffectV::Nothing,
        ),
        InputAction::Cancel => (AppV { mode: ModeV::Normal, ..pre }, EffectV::Nothing),
        InputAction::Commit => if draft_commit_ok(d) {
            (
                AppV {
                    servers: pre.servers.update(idx, committed_server(d)),
                    mode: ModeV::Normal,
                    ..pre
                },
                EffectV::PersistServers,
            )
        } else {
            (pre, EffectV::Nothing)
        },
        _ => (pre, EffectV::Nothing),
    }
}

/// Transitions out of the delete-confirmation mode: a confirmation with
/// the target still in bounds removes it, repairs the selection and asks
/// for the list to be persisted; a stale target is ignored. Declining or
/// cancelling leaves the list alone.
pub open spec fn step_confirm(pre: AppV, idx: int, a: InputAction) -> (AppV, EffectV) {
    match a {
        InputAction::ConfirmYes => if 0 <= idx < pre.servers.len() {
            let l2 = pre.servers.remove(idx);
            (
                AppV {
                    servers: l2,
                    selected: repaired_sel(idx, l2.len() as int),
                    mode: ModeV::Normal,
                    ..pre
                },
                EffectV::PersistServers,
            )
        } else {
            (AppV { mode: ModeV::Normal, ..pre }, EffectV::Nothing)
        },
        InputAction::ConfirmNo => (AppV { mode: ModeV::Normal, ..pre }, EffectV::Nothing),
        InputAction::Cancel => (AppV { mode: ModeV::Normal, ..pre }, EffectV::Nothing),
        _ => (pre, EffectV::Nothing),
    }
}

/// Transitions out of the message mode: the message is modal and only
/// the dismissing actions leave it.
pub open spec fn step_message(pre: AppV, a: InputAction) -> (AppV, EffectV) {
    match a {
        InputAction::ConfirmYes => (AppV { mode: ModeV::Normal, ..pre }, EffectV::Nothing),
        InputAction::Cancel => (AppV { mode: ModeV::Normal, ..pre }, EffectV::Nothing),
        InputAction::DismissMessage => (AppV { mode: ModeV::Normal, ..pre }, EffectV::Nothing),
        _ => (pre, EffectV::Nothing),
    }
}

/// One step of the interaction state machine: the state after the action
/// and the instruction handed to the surrounding binary.
pub open spec fn step(pre: AppV, a: InputAction) -> (AppV, EffectV) {
    match pre.mode {
        ModeV::Normal => step_normal(pre, a),
        ModeV::Adding(d) => step_adding(pre, d, a),
        ModeV::Editing(d, idx) => step_editing(pre, d, idx, a),
        ModeV::ConfirmDelete(idx) => step_confirm(pre, idx, a),
        ModeV::ShowMessage(_) => step_message(pre, a),
    }
}

// ---------------------------------------------------------------------------
// The executable state machine
// ---------------------------------------------------------------------------

/// The profile a valid draft commits to, with the blank-field defaults
/// applied.
fn build_server(name: String, user: String, host: String, port: String, jump_host: String) -> (r:
    Server)
    ensures
        r@ == committed_server(
            DraftV {
                field_idx: 0,
                name: name@,
                user: user@,
                host: host@,
                port: port@,
                jump_host: jump_host@,
            },
        ),
{
    Server {
        name,
        user: if user.as_str().is_empty() {
            String::from_str("root")
        } else {
            user
        },
        host,
        port: if port.as_str().is_empty() {
            String::from_str("22")
        } else {
            port
        },
        jump_host,
    }
}

/// The fixed program name of each external client.
fn program_name(k: ConnectKind) -> (r: String)
    ensures
        r@ == program_for(k),
{
    match k {
        ConnectKind::SecureShell => String::from_str("ssh"),
        ConnectKind::MobileShell => String::from_str("mosh"),
        ConnectKind::FileTransfer => String::from_str("sftp"),
        ConnectKind::CopyId => String::from_str("ssh-copy-id"),
    }
}

impl App {
    /// A connect action from the normal mode.
    #[verifier::rlimit(60)]
    fn on_connect(&mut self, k: ConnectKind) -> (e: Effect)
        requires
            app_wf(old(self)@),
            old(self).input_mode is Normal,
        ensures
            app_wf(final(self)@),
            final(self)@ == connect_step(old(self)@, k).0,
            e@ == connect_step(old(self)@, k).1,
    {
        let ghost pre = self@;
        match self.selected {
            None => Effect::Nothing,
            Some(i) => {
                let srv = &self.servers[i];
                let args = match k {
                    ConnectKind::SecureShell => srv.to_ssh_args(),
                    ConnectKind::MobileShell => srv.to_mosh_args(),
                    ConnectKind::FileTransfer => srv.to_sftp_args(),
                    ConnectKind::CopyId => srv.to_copy_id_args(),
                };
                let program = program_name(k);
                let live = match k {
                    ConnectKind::CopyId => false,
                    _ => true,
                };
                if live {
                    let key = self.servers[i].identity_key();
                    let moved = promote(&mut self.servers, &key);
                    if moved {
                        self.selected = Some(0);
                    }
                    self.recent_key = Some(key);
                    proof {
                        lemma_promote_preserves(pre.servers, key_of(pre.servers[i as int]));
                    }
                    Effect::Launch(
                        LaunchPlan { program, args, save_recency: true, save_servers: moved },
                    )
                } else {
                    Effect::Launch(
                        LaunchPlan { program, args, save_recency: false, save_servers: false },
                    )
                }
            },
        }
    }

    /// An action arriving in the normal mode.
    fn on_normal(&mut self, a: InputAction) -> (e: Effect)
        requires
            app_wf(old(self)@),
            old(self).input_mode is Normal,
        ensures
            app_wf(final(self)@),
            final(self)@ == step_normal(old(self)@, a).0,
            e@ == step_normal(old(self)@, a).1,
    {
        match a {
            InputAction::Quit => Effect::Quit,
            InputAction::MoveNext => {
                self.next();
                Effect::Nothing
            },
            InputAction::MovePrevious => {
                self.previous();
                Effect::Nothing
            },
            InputAction::JumpFirst => {
                self.select_first();
                Effect::Nothing
            },
            InputAction::JumpLast => {
                self.select_last();
                Effect::Nothing
            },
            InputAction::BeginAdd => {
                self.input_mode = InputMode::Adding(AddingState::new());
                Effect::Nothing
            },
            InputAction::BeginEdit => {
                if let Some(i) = self.selected {
                    let st = EditingState::new(&self.servers[i], i);
                    self.input_mode = InputMode::Editing(st);
                }
                Effect::Nothing
            },
            InputAction::BeginDelete => {
                if let Some(i) = self.selected {
                    self.input_mode = InputMode::ConfirmDelete(i);
                }
                Effect::Nothing
            },
            InputAction::ConnectSecureShell => self.on_connect(ConnectKind::SecureShell),
            InputAction::ConnectMobileShell => self.on_connect(ConnectKind::MobileShell),
            InputAction::ConnectFileTransfer => self.on_connect(ConnectKind::FileTransfer),
            InputAction::ConnectCopyId => self.on_connect(ConnectKind::CopyId),
            _ => Effect::Nothing,
        }
    }

    /// An action arriving while a new profile is being entered.
    fn on_adding(&mut self, st: AddingState, a: InputAction) -> (e: Effect)
        requires
            app_wf(AppV { mode: ModeV::Adding(st@), ..old(self)@ }),
            old(self).input_mode is Normal,
        ensures
            app_wf(final(self)@),
            final(self)@ == step_adding(
                AppV { mode: ModeV::Adding(st@), ..old(self)@ },
                st@,
                a,
            ).0,
            e@ == step_adding(AppV { mode: ModeV::Adding(st@), ..old(self)@ }, st@, a).1,
    {
        let ghost pre = AppV { mode: ModeV::Adding(st@), ..self@ };
        let mut st = st;
        match a {
            InputAction::FieldChar(c) => {
                if st.field_idx == 0 {
                    st.name.push(c);
                } else if st.field_idx == 1 {
                    st.user.push(c);
                } else if st.field_idx == 2 {
                    st.host.push(c);
                } else if st.field_idx == 3 {
                    st.port.push(c);
                } else if st.field_idx == 4 {
                    st.jump_host.push(c);
                }
                self.input_mode = InputMode::Adding(st);
                Effect::Nothing
            },
            InputAction::FieldBackspace => {
                if st.field_idx == 0 {
                    st.name.pop();
                } else if st.field_idx == 1 {
                    st.user.pop();
                } else if st.field_idx == 2 {
                    st.host.pop();
                } else if st.field_idx == 3 {
                    st.port.pop();
                } else if st.field_idx == 4 {
                    st.jump_host.pop();
                }
                self.input_mode = InputMode::Adding(st);
                Effect::Nothing
            },
            InputAction::FieldAdvance => {
                if st.field_idx < 4 {
                    st.field_idx = st.field_idx + 1;
                } else {
                    st.field_idx = 0;
                }
                self.input_mode = InputMode::Adding(st);
                Effect::Nothing
            },
            InputAction::FieldRetreat => {
                if st.field_idx > 0 {
                    st.field_idx = st.field_idx - 1;
                } else {
                    st.field_idx = 4;
                }
                self.input_mode = InputMode::Adding(st);
                Effect::Nothing
            },
            InputAction::Cancel => Effect::Nothing,
            InputAction::Commit => {
                if !st.name.as_str().is_empty() && !st.host.as_str().is_empty() {
                    let s = build_server(st.name, st.user, st.host, st.port, st.jump_host);
                    self.servers.push(s);
                    self.selected = Some(self.servers.len() - 1);
                    proof {
                        assert(views(self.servers@) =~~= pre.servers.push(committed_server(st@)));
                        assert forall|j: int|
                            0 <= j < views(self.servers@).len() implies server_valid(
                            #[trigger] views(self.servers@)[j],
                        ) by {
                            if j < pre.servers.len() {
                                assert(views(self.servers@)[j] == pre.servers[j]);
                            }
                        }
                    }
                    Effect::PersistServers
                } else {
                    self.input_mode = InputMode::Adding(st);
                    Effect::Nothing
                }
            },
            _ => {
                self.input_mode = InputMode::Adding(st);
                Effect::Nothing
            },
        }
    }

    /// An action arriving while an existing profile is being edited.
    fn on_editing(&mut self, st: EditingState, a: InputAction) -> (e: Effect)
        requires
            app_wf(
                AppV { mode: ModeV::Editing(st@, st.server_index as int), ..old(self)@ },
            ),
            old(self).input_mode is Normal,
        ensures
            app_wf(final(self)@),
            final(self)@ == step_editing(
                AppV { mode: ModeV::Editing(st@, st.server_index as int), ..old(self)@ },
                st@,
                st.server_index as int,
                a,
            ).0,
            e@ == step_editing(
                AppV { mode: ModeV::Editing(st@, st.server_index as int), ..old(self)@ },
                st@,
                st.server_index as int,
                a,
            ).1,
    {
        let ghost pre = AppV { mode: ModeV::Editing(st@, st.server_index as int), ..self@ };
        let mut st = st;
        match a {
            InputAction::FieldChar(c) => {
                if st.field_idx == 0 {
                    st.name.push(c);
                } else if st.field_idx == 1 {
                    st.user.push(c);
                } else if st.field_idx == 2 {
                    st.host.push(c);
                } else if st.field_idx == 3 {
                    st.port.push(c);
                } else if st.field_idx == 4 {
                    st.jump_host.push(c);
                }
                self.input_mode = InputMode::Editing(st);
                Effect::Nothing
            },
            InputAction::FieldBackspace => {
                if st.field_idx == 0 {
                    st.name.pop();
                } else if st.field_idx == 1 {
                    st.user.pop();
                } else if st.field_idx == 2 {
                    st.host.pop();
                } else if st.field_idx == 3 {
                    st.port.pop();
                } else if st.field_idx == 4 {
                    st.jump_host.pop();
                }
                self.input_mode = InputMode::Editing(st);
                Effect::Nothing
            },
            InputAction::FieldAdvance => {
                if st.field_idx < 4 {
                    st.field_idx = st.field_idx + 1;
                } else {
                    st.field_idx = 0;
                }
                self.input_mode = InputMode::Editing(st);
                Effect::Nothing
            },
            InputAction::FieldRetreat => {
                if st.field_idx > 0 {
                    st.field_idx = st.field_idx - 1;
                } else {
                    st.field_idx = 4;
                }
                self.input_mode = InputMode::Editing(st);
                Effect::Nothing
            },
            InputAction::Cancel => Effect::Nothing,
            InputAction::Commit => {
                if !st.name.as_str().is_empty() && !st.host.as_str().is_empty() {
                    let idx = st.server_index;
                    let s = build_server(st.name, st.user, st.host, st.port, st.jump_host);
                    self.servers.set(idx, s);
                    proof {
                        assert(views(self.servers@) =~~= pre.servers.update(
                            idx as int,
                            committed_server(st@),
                        ));
                        assert forall|j: int|
                            0 <= j < views(self.servers@).len() implies server_valid(
                            #[trigger] views(self.servers@)[j],
                        ) by {
                            if j != idx {
                                assert(views(self.servers@)[j] == pre.servers[j]);
                            }
                        }
                    }
                    Effect::PersistServers
                } else {
                    self.input_mode = InputMode::Editing(st);
                    Effect::Nothing
                }
            },
            _ => {
                self.input_mode = InputMode::Editing(st);
                Effect::Nothing
            },
        }
    }

    /// An action arriving while a deletion awaits confirmation.
    fn on_confirm(&mut self, idx: usize, a: InputAction) -> (e: Effect)
        requires
            app_wf(AppV { mode: ModeV::ConfirmDelete(idx as int), ..old(self)@ }),
            old(self).input_mode is Normal,
        ensures
            app_wf(final(self)@),
            final(self)@ == step_confirm(
                AppV { mode: ModeV::ConfirmDelete(idx as int), ..old(self)@ },
                idx as int,
                a,
            ).0,
            e@ == step_confirm(
                AppV { mode: ModeV::ConfirmDelete(idx as int), ..old(self)@ },
                idx as int,
                a,
            ).1,
    {
        let ghost pre = AppV { mode: ModeV::ConfirmDelete(idx as int), ..self@ };
        match a {
            InputAction::ConfirmYes => {
                if idx < self.servers.len() {
                    self.servers.remove(idx);
                    if self.servers.len() == 0 {
                        self.selected = None;
                    } else if idx >= self.servers.len() {
                        self.selected = Some(self.servers.len() - 1);
                    } else {
                        self.selected = Some(idx);
                    }
                    proof {
                        let l = pre.servers;
                        let l2 = l.remove(idx as int);
                        assert(views(self.servers@) =~~= l2);
                        assert forall|j: int| 0 <= j < l2.len() implies server_valid(
                            #[trigger] l2[j],
                        ) by {
                            if j < idx as int {
                                assert(l2[j] == l[j]);
                            } else {
                                assert(l2[j] == l[j + 1]);
                            }
                        }
                    }
                    Effect::PersistServers
                } else {
                    Effect::Nothing
                }
            },
            InputAction::ConfirmNo => Effect::Nothing,
            InputAction::Cancel => Effect::Nothing,
            _ => {
                self.input_mode = InputMode::ConfirmDelete(idx);
                Effect::Nothing
            },
        }
    }

    /// An action arriving while a message is showing.
    fn on_message(&mut self, text: String, a: InputAction) -> (e: Effect)
        requires
            app_wf(AppV { mode: ModeV::ShowMessage(text@), ..old(self)@ }),
            old(self).input_mode is Normal,
        ensures
            app_wf(final(self)@),
            final(self)@ == step_message(
                AppV { mode: ModeV::ShowMessage(text@), ..old(self)@ },
                a,
            ).0,
            e@ == step_message(AppV { mode: ModeV::ShowMessage(text@), ..old(self)@ }, a).1,
    {
        match a {
            InputAction::ConfirmYes => Effect::Nothing,
            InputAction::Cancel => Effect::Nothing,
            InputAction::DismissMessage => Effect::Nothing,
            _ => {
                self.input_mode = InputMode::ShowMessage(text);
                Effect::Nothing
            },
        }
    }

    /// Process one logical input action: mutate the state exactly as the
    /// transition relation [`step`] describes and hand back the
    /// instruction for the surrounding binary.
    pub fn handle_input(&mut self, a: InputAction) -> (e: Effect)
        requires
            app_wf(old(self)@),
        ensures
            app_wf(final(self)@),
            final(self)@ == step(old(self)@, a).0,
            e@ == step(old(self)@, a).1,
    {
        let mut mode = InputMode::Normal;
        core::mem::swap(&mut mode, &mut self.input_mode);
        match mode {
            InputMode::Normal => self.on_normal(a),
            InputMode::Adding(st) => self.on_adding(st, a),
            InputMode::Editing(st) => self.on_editing(st, a),
            InputMode::ConfirmDelete(idx) => self.on_confirm(idx, a),
            InputMode::ShowMessage(text) => self.on_message(text, a),
        }
    }

    /// Record the outcome of an external client run: a failure switches
    /// to the modal message so the user must acknowledge it, a success
    /// changes nothing.
    pub fn note_command_result(&mut self, success: bool, message: String)
        requires
            app_wf(old(self)@),
        ensures
            app_wf(final(self)@),
            success ==> final(self)@ == old(self)@,
            !success ==> final(self)@ == (AppV {
                mode: ModeV::ShowMessage(message@),
                ..old(self)@
            }),
    {
        if !success {
            self.input_mode = InputMode::ShowMessage(message);
        }
    }
}

// ---------------------------------------------------------------------------
// Startup
// ---------------------------------------------------------------------------

/// Every profile of the list carries a non-empty name and host.
pub open spec fn all_valid(l: Seq<ServerV>) -> bool {
    forall|i: int| 0 <= i < l.len() ==> server_valid(#[trigger] l[i])
}

/// The view of an optional piece of loaded text.
pub open spec fn text_view(t: Option<&str>) -> Option<Seq<char>> {
    match t {
        Some(s) => Some(s@),
        None => None,
    }
}

/// What loading the profile file yields: a missing file is an empty
/// store; text in any other shape than the written form, or holding a
/// profile with an empty name or host, degrades to an empty store and
/// reports so.
pub open spec fn loaded_servers(text: Option<Seq<char>>) -> (Seq<ServerV>, bool) {
    match text {
        None => (Seq::empty(), false),
        Some(s) => match dec_doc(s) {
            Some(l) => if all_valid(l) {
                (l, false)
            } else {
                (Seq::empty(), true)
            },
            None => (Seq::empty(), true),
        },
    }
}

/// What loading the recency file yields: a missing or malformed record
/// is silently no key.
pub open spec fn loaded_recent(text: Option<Seq<char>>) -> Option<Seq<char>> {
    match text {
        None => None,
        Some(s) => match dec_recent(s) {
            Some(k) => k,
            None => None,
        },
    }
}

/// The state the tool starts in: the loaded store with the remembered
/// profile promoted to the front, the first entry selected when any
/// exists, and the normal mode. The flag reports a degraded load.
pub open spec fn startup(ptext: Option<Seq<char>>, rtext: Option<Seq<char>>) -> (AppV, bool) {
    let (l0, degraded) = loaded_servers(ptext);
    let rk = loaded_recent(rtext);
    let l1 = match rk {
        Some(k) => promote_spec(l0, k).0,
        None => l0,
    };
    (
        AppV {
            servers: l1,
            selected: if l1.len() == 0 {
                None
            } else {
                Some(0int)
            },
            mode: ModeV::Normal,
            recent_key: rk,
        },
        degraded,
    )
}

/// Whether every stored profile carries a non-empty name and host.
fn all_valid_exec(servers: &Vec<Server>) -> (r: bool)
    ensures
        r == all_valid(views(servers@)),
{
    let mut i: usize = 0;
    while i < servers.len()
        invariant
            i <= servers.len(),
            forall|j: int| 0 <= j < i ==> server_valid(#[trigger] views(servers@)[j]),
        decreases servers.len() - i,
    {
        if servers[i].name.as_str().is_empty() || servers[i].host.as_str().is_empty() {
            proof {
                assert(!server_valid(views(servers@)[i as int]));
            }
            return false;
        }
        i += 1;
    }
    true
}

impl App {
    /// Build the starting state from the text of the profile file and of
    /// the recency file, each `None` when its file does not exist. The
    /// flag reports that unreadable profile text was dropped.
    pub fn new(profile_text: Option<&str>, recent_text: Option<&str>) -> (r: (Self, bool))
        ensures
            app_wf(r.0@),
            (r.0@, r.1) == startup(text_view(profile_text), text_view(recent_text)),
    {
        let (mut servers, degraded): (Vec<Server>, bool) = match profile_text {
            None => (Vec::new(), false),
            Some(s) => match parse_servers(s) {
                Some(v) => if all_valid_exec(&v) {
                    (v, false)
                } else {
                    (Vec::new(), true)
                },
                None => (Vec::new(), true),
            },
        };
        proof {
            assert(views(Seq::<Server>::empty()) =~= Seq::<ServerV>::empty());
        }
        let recent: Option<String> = match recent_text {
            None => None,
            Some(s) => match parse_recent(s) {
                Some(k) => k,
                None => None,
            },
        };
        let ghost l0 = views(servers@);
        if let Some(k) = &recent {
            let _moved = promote(&mut servers, k);
            proof {
                lemma_promote_preserves(l0, k@);
            }
        }
        let selected: Option<usize> = if servers.len() == 0 {
            None
        } else {
            Some(0)
        };
        (App { servers, selected, input_mode: InputMode::Normal, recent_key: recent }, degraded)
    }
}

// ---------------------------------------------------------------------------
// Laws of the selection model and the state machine
// ---------------------------------------------------------------------------

/// The selection after `n` wrap-around steps down the list.
pub open spec fn next_sel_n(sel: Option<int>, len: int, n: nat) -> Option<int>
    decreases n,
{
    if n == 0 {
        sel
    } else {
        next_sel(next_sel_n(sel, len, (n - 1) as nat), len)
    }
}

/// After `k` steps from `i` the selection sits at `i + k`, reduced once
/// past the end of the list.
proof fn lemma_next_sel_n_value(i: int, len: int, k: nat)
    requires
        0 <= i < len,
        k <= len,
    ensures
        next_sel_n(Some(i), len, k) == Some(
            if i + k < len {
                i + k
            } else {
                i + k - len
            },
        ),
    decreases k,
{
    if k > 0 {
        lemma_next_sel_n_value(i, len, (k - 1) as nat);
    }
}

/// Cyclic navigation: on a non-empty list, stepping down as many times
/// as the list is long returns the selection to where it started.
pub proof fn lemma_next_cycles(i: int, len: int)
    requires
        0 <= i < len,
    ensures
        next_sel_n(Some(i), len, len as nat) == Some(i),
{
    lemma_next_sel_n_value(i, len, len as nat);
}

/// Deleting the selected entry always repairs the selection: it never
/// points past the end of the shrunk list, and deleting the only
/// remaining entry clears it.
pub proof fn lemma_delete_repairs_selection(v: AppV, i: int)
    requires
        app_wf(v),
        v.selected == Some(i),
    ensures
        selection_ok(deleted_at(v, i).selected, deleted_at(v, i).servers.len() as int),
        v.servers.len() == 1 ==> deleted_at(v, i).selected is None,
{
}

/// Round trip of persistence: loading back the written form of any
/// store whose profiles all carry a name and a host yields exactly the
/// profiles that were saved, in order, field for field, with nothing
/// dropped.
pub proof fn lemma_save_load(l: Seq<ServerV>)
    requires
        all_valid(l),
    ensures
        loaded_servers(Some(crate::codec::enc_list(l))) == (l, false),
{
    crate::codec::lemma_round_trip_list(l);
}

/// Promotion idempotence: a profile already at the front is never moved,
/// and the list comes back unchanged.
pub proof fn lemma_promote_first_noop(l: Seq<ServerV>, key: Seq<char>)
    requires
        l.len() > 0,
        key_of(l[0]) == key,
    ensures
        promote_spec(l, key) == (l, false),
{
    lemma_least_key_at(l, key, 0);
}

/// A commit whose draft has an empty host (or name) is swallowed: the
/// mode, the draft and the stored list all stay exactly as they were,
/// and nothing is persisted.
pub proof fn lemma_commit_empty_host_noop(pre: AppV)
    requires
        match pre.mode {
            ModeV::Adding(d) => !draft_commit_ok(d),
            ModeV::Editing(d, _) => !draft_commit_ok(d),
            _ => false,
        },
    ensures
        step(pre, InputAction::Commit) == (pre, EffectV::Nothing),
{
}

} // verus!
