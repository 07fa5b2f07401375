use crate::addr::{discover_target, spec_discover_target, SockAddr};
use crate::events::{EventModel, EventModelView, EventProxy, EventTelnet};
use crate::proxy::{utf8_to_string, IncomingProxyMessage, MessageView, OutgoingProxyMessage};
use crate::ui::{
    generate_ui, interpret_input, prepare_screen, render, spec_classify, spec_clear_screen,
    spec_screen, spec_screen_options, spec_tok_window, UserInput,
};
use vstd::prelude::*;
use vstd::string::StringExecFns;
use vstd::utf8::{decode_utf8, encode_utf8, valid_utf8};

verus! {

/// A proxy that stays silent for this long, in milliseconds, is removed on
/// the next tick.
pub const TIMEOUT_MS: u64 = 5000;

/// Hard bound on the proxy table so that row arithmetic can never overflow.
/// Entries expire after [`TIMEOUT_MS`], so the table stays tiny in practice.
pub const PROXY_TABLE_MAX: usize = 0x1000_0000;

/// One entry per known remote proxy.
///
/// An entry is created on the first datagram from a previously unknown
/// address, mutated only by the model, and removed on a tick once the proxy
/// has been silent for the liveness timeout.
pub struct ProxyInfo {
    /// The proxy's UDP address; the identity key of the table.
    pub addr: SockAddr,
    /// Human-readable name, set when an IAM message arrives.
    pub info: String,
    /// Timestamp, in milliseconds, of the most recent datagram from `addr`.
    pub last_contact: u64,
    /// Most recent stream-title metadata.
    pub meta: String,
}

/// The mathematical content of a [`ProxyInfo`].
#[verifier::ext_equal]
pub ghost struct ProxyView {
    pub addr: SockAddr,
    pub info: Seq<char>,
    pub last_contact: u64,
    pub meta: Seq<char>,
}

impl View for ProxyInfo {
    type V = ProxyView;

    open spec fn view(&self) -> ProxyView {
        ProxyView {
            addr: self.addr,
            info: self.info@,
            last_contact: self.last_contact,
            meta: self.meta@,
        }
    }
}

/// The views of every entry of a proxy table.
pub open spec fn proxy_views(proxies: Seq<ProxyInfo>) -> Seq<ProxyView> {
    proxies.map_values(|p: ProxyInfo| p@)
}

/// The application state, owned by the model loop and mutated by no one else.
pub struct Model {
    /// The port the telnet acceptor listens on; immutable after construction.
    pub telnet_port: u16,
    /// Rolling window of the last up to three input bytes, most recent first.
    pub input_buf: Vec<u8>,
    /// The highlighted menu row.
    pub cursor_line: i64,
    /// The table of known proxies, in order of first contact.
    pub proxies: Vec<ProxyInfo>,
    /// The address whose audio is forwarded, when one is selected.
    pub active_proxy: Option<SockAddr>,
}

/// The mathematical content of a [`Model`].
#[verifier::ext_equal]
pub ghost struct ModelView {
    pub telnet_port: u16,
    pub input_buf: Seq<u8>,
    pub cursor_line: int,
    pub proxies: Seq<ProxyView>,
    pub active_proxy: Option<SockAddr>,
}

impl View for Model {
    type V = ModelView;

    open spec fn view(&self) -> ModelView {
        ModelView {
            telnet_port: self.telnet_port,
            input_buf: self.input_buf@,
            cursor_line: self.cursor_line as int,
            proxies: proxy_views(self.proxies@),
            active_proxy: self.active_proxy,
        }
    }
}

/// No two table entries share an address.
pub open spec fn spec_addrs_unique(proxies: Seq<ProxyView>) -> bool {
    forall|i: int, j: int|
        0 <= i < j < proxies.len() ==> proxies[i].addr != proxies[j].addr
}

/// Some table entry has the given address.
pub open spec fn spec_has_addr(proxies: Seq<ProxyView>, addr: SockAddr) -> bool {
    exists|i: int| 0 <= i < proxies.len() && proxies[i].addr == addr
}

/// The first table index holding the given address.
pub open spec fn spec_addr_index(proxies: Seq<ProxyView>, addr: SockAddr) -> int
    decreases proxies.len(),
{
    if proxies.len() == 0 {
        0
    } else if proxies[0].addr == addr {
        0
    } else {
        1 + spec_addr_index(proxies.drop_first(), addr)
    }
}

/// Well-formedness of the model: the keystroke window holds at most three
/// bytes, the cursor is on a menu row, and the table is within bounds with
/// pairwise distinct addresses.
pub open spec fn spec_wf(m: ModelView) -> bool {
    &&& m.input_buf.len() <= 3
    &&& 0 <= m.cursor_line <= m.proxies.len() + 1
    &&& m.proxies.len() <= PROXY_TABLE_MAX
    &&& spec_addrs_unique(m.proxies)
}

/// The active proxy, when set, is the address of some table entry.
pub open spec fn spec_active_ok(m: ModelView) -> bool {
    match m.active_proxy {
        None => true,
        Some(addr) => spec_has_addr(m.proxies, addr),
    }
}

/// The state of a freshly constructed model.
pub open spec fn spec_init(telnet_port: u16) -> ModelView {
    ModelView {
        telnet_port,
        input_buf: Seq::empty(),
        cursor_line: 0,
        proxies: Seq::empty(),
        active_proxy: None,
    }
}

impl Model {
    /// A model with an empty table, the cursor on the search row, and no
    /// active proxy.
    pub fn new(telnet_port: u16) -> (r: Model)
        ensures
            r@ == spec_init(telnet_port),
            spec_wf(r@),
            spec_active_ok(r@),
    {
        let r = Model {
            telnet_port,
            input_buf: Vec::new(),
            cursor_line: 0,
            proxies: Vec::new(),
            active_proxy: None,
        };
        assert(r@.input_buf =~= Seq::<u8>::empty());
        assert(r@.proxies =~= Seq::<ProxyView>::empty());
        r
    }
}

/// The pattern that recognizes quoted stream titles in metadata text.
pub open spec fn spec_title_pattern() -> Seq<char> {
    "StreamTitle='(.*)'"@
}

/// The first capture group of the first match of a regular expression in a
/// text; a function of the pattern and the text alone.
pub uninterp spec fn regex_first_capture(pattern: Seq<char>, text: Seq<char>) -> Option<Seq<char>>;

/// Relies on `regex::Regex::new` and `regex::Regex::captures`: compiling a
/// pattern and searching a text with it are deterministic, so the first
/// match's first capture group is a function of the pattern and the text
/// alone; `None` when the pattern does not compile, nothing matches, or the
/// match binds no first group.
#[verifier::external_body]
fn capture_first(pattern: &str, text: &str) -> (r: Option<String>)
    ensures
        r is Some <==> regex_first_capture(pattern@, text@) is Some,
        r matches Some(cap) ==> regex_first_capture(pattern@, text@) == Some(cap@),
{
    match regex::Regex::new(pattern) {
        Ok(re) => re.captures(text).and_then(|c| c.get(1)).map(|m| m.as_str().to_owned()),
        Err(_) => None,
    }
}

/// The metadata a text stands for: the stream title it quotes, or the whole
/// text when it quotes none.
pub open spec fn spec_extract_meta(text: Seq<char>) -> Seq<char> {
    match regex_first_capture(spec_title_pattern(), text) {
        Some(cap) => cap,
        None => text,
    }
}

/// Extracts the quoted stream title from metadata text, or returns the text
/// itself when no title is quoted.
pub fn extract_meta(text: &str) -> (r: String)
    ensures
        r@ == spec_extract_meta(text@),
{
    match capture_first("StreamTitle='(.*)'", text) {
        Some(cap) => cap,
        None => text.to_owned(),
    }
}

/// What the model loop should do after an event.
#[derive(Debug)]
pub enum Control {
    /// Wait for the next event.
    Continue(),
    /// The user chose to quit; the loop ends cleanly.
    Quit(),
    /// A worker crashed; the message names it and carries the reason.
    Fatal(String),
}

/// The mathematical content of a [`Control`].
pub ghost enum ControlView {
    Continue,
    Quit,
    Fatal(Seq<char>),
}

impl View for Control {
    type V = ControlView;

    open spec fn view(&self) -> ControlView {
        match self {
            Control::Continue() => ControlView::Continue,
            Control::Quit() => ControlView::Quit,
            Control::Fatal(message) => ControlView::Fatal(message@),
        }
    }
}

/// Everything the surrounding process is asked to do after one event, in
/// order per queue.
pub struct Step {
    /// Datagrams for the proxy-outbound queue.
    pub proxy_out: Vec<EventProxy>,
    /// Byte blobs for the telnet-outbound queue.
    pub telnet_out: Vec<EventTelnet>,
    /// Audio bytes for standard output.
    pub audio_out: Vec<u8>,
    /// Lines for the logging sink.
    pub logs: Vec<String>,
    /// Whether the loop continues, quits, or fails.
    pub control: Control,
}

/// The mathematical content of a [`Step`] together with the state it leaves.
#[verifier::ext_equal]
pub ghost struct StepView {
    pub model: ModelView,
    pub proxy_out: Seq<EventProxy>,
    pub telnet_out: Seq<Seq<u8>>,
    pub audio_out: Seq<u8>,
    pub logs: Seq<Seq<char>>,
    pub control: ControlView,
}

/// True when a concrete step and the state it left match the given view.
pub open spec fn spec_step_matches(m: ModelView, step: Step, s: StepView) -> bool {
    &&& m == s.model
    &&& step.proxy_out@ == s.proxy_out
    &&& step.telnet_out@.map_values(|e: EventTelnet| e.bytes()) == s.telnet_out
    &&& step.audio_out@ == s.audio_out
    &&& step.logs@.map_values(|l: String| l@) == s.logs
    &&& step.control@ == s.control
}

/// The bytes of one screen paint of the given state.
pub open spec fn spec_render_bytes(m: ModelView) -> Seq<u8> {
    spec_clear_screen() + encode_utf8(spec_screen(m.proxies, m.active_proxy, m.cursor_line))
}

/// The cursor forced back onto a menu row: into `[0, len + 1]`.
pub open spec fn spec_clamp_cursor(cursor: int, len: int) -> int {
    if cursor < 0 {
        0
    } else if cursor > len + 1 {
        len + 1
    } else {
        cursor
    }
}

/// Running total of processing user-input bytes: the state reached, the
/// Discover datagrams emitted so far, and whether the quit row was selected.
#[verifier::ext_equal]
pub ghost struct InputOutcome {
    pub model: ModelView,
    pub discovers: Seq<EventProxy>,
    pub quit: bool,
}

/// Moving the cursor up; the unreachable lower bound of the row number
/// saturates rather than wraps.
pub open spec fn spec_cursor_up(cursor: int) -> int {
    if cursor > i64::MIN {
        cursor - 1
    } else {
        cursor
    }
}

/// Moving the cursor down; the unreachable upper bound saturates.
pub open spec fn spec_cursor_down(cursor: int) -> int {
    if cursor < i64::MAX {
        cursor + 1
    } else {
        cursor
    }
}

/// Selecting the current row: the search row broadcasts a Discover, the row
/// past the table quits, a proxy row toggles the active proxy, and a cursor
/// outside the menu does nothing.
pub open spec fn spec_select(m: ModelView) -> InputOutcome {
    if m.cursor_line == 0 {
        InputOutcome {
            model: m,
            discovers: seq![
                EventProxy::Write(spec_discover_target(), OutgoingProxyMessage::Discover()),
            ],
            quit: false,
        }
    } else if m.cursor_line == m.proxies.len() + 1 {
        InputOutcome { model: m, discovers: Seq::empty(), quit: true }
    } else if 1 <= m.cursor_line <= m.proxies.len() {
        let addr = m.proxies[m.cursor_line - 1].addr;
        let active = if m.active_proxy == Some(addr) {
            Option::<SockAddr>::None
        } else {
            Some(addr)
        };
        InputOutcome {
            model: ModelView { active_proxy: active, ..m },
            discovers: Seq::empty(),
            quit: false,
        }
    } else {
        InputOutcome { model: m, discovers: Seq::empty(), quit: false }
    }
}

/// One input byte: push it through the keystroke window, then apply the
/// command it completes.
pub open spec fn spec_user_byte(m: ModelView, byte: u8) -> InputOutcome {
    let buf = spec_tok_window(m.input_buf, byte);
    let m2 = ModelView { input_buf: buf, ..m };
    match spec_classify(buf) {
        UserInput::Up() => InputOutcome {
            model: ModelView { cursor_line: spec_cursor_up(m2.cursor_line), ..m2 },
            discovers: Seq::empty(),
            quit: false,
        },
        UserInput::Down() => InputOutcome {
            model: ModelView { cursor_line: spec_cursor_down(m2.cursor_line), ..m2 },
            discovers: Seq::empty(),
            quit: false,
        },
        UserInput::Select() => spec_select(m2),
        UserInput::Unrecognized() => InputOutcome {
            model: m2,
            discovers: Seq::empty(),
            quit: false,
        },
    }
}

/// A whole input blob, byte by byte; processing stops at a quit, leaving the
/// remaining bytes unread.
pub open spec fn spec_user_input(m: ModelView, bytes: Seq<u8>) -> InputOutcome
    decreases bytes.len(),
{
    if bytes.len() == 0 {
        InputOutcome { model: m, discovers: Seq::empty(), quit: false }
    } else {
        let first = spec_user_byte(m, bytes[0]);
        if first.quit {
            first
        } else {
            let rest = spec_user_input(first.model, bytes.drop_first());
            InputOutcome {
                model: rest.model,
                discovers: first.discovers + rest.discovers,
                quit: rest.quit,
            }
        }
    }
}

/// Processing input never touches the table or the port, keeps the keystroke
/// window within its three bytes, and keeps the active proxy an address of
/// some table entry.
pub proof fn lemma_user_input_props(m: ModelView, bytes: Seq<u8>)
    requires
        m.input_buf.len() <= 3,
    ensures
        ({
            let o = spec_user_input(m, bytes);
            &&& o.model.telnet_port == m.telnet_port
            &&& o.model.proxies == m.proxies
            &&& o.model.input_buf.len() <= 3
            &&& spec_active_ok(m) ==> spec_active_ok(o.model)
        }),
    decreases bytes.len(),
{
    if bytes.len() > 0 {
        let first = spec_user_byte(m, bytes[0]);
        assert(first.model.input_buf.len() <= 3);
        if !first.quit {
            lemma_user_input_props(first.model, bytes.drop_first());
        }
    }
}

/// Whether a proxy last heard from at `last_contact` is still live at `now`:
/// strictly less than the timeout has passed.  An entry stamped in the future
/// (clock skew) counts as live.
pub open spec fn spec_alive(p: ProxyView, now: u64) -> bool {
    now - p.last_contact < TIMEOUT_MS
}

/// The table entries that survive a tick at `now`, in table order.
pub open spec fn spec_surviving(proxies: Seq<ProxyView>, now: u64) -> Seq<ProxyView>
    decreases proxies.len(),
{
    if proxies.len() == 0 {
        Seq::empty()
    } else {
        spec_surviving(proxies.drop_last(), now) + (if spec_alive(proxies.last(), now) {
            seq![proxies.last()]
        } else {
            Seq::<ProxyView>::empty()
        })
    }
}

/// One KeepAlive datagram per table entry, in table order.
pub open spec fn spec_keepalives(proxies: Seq<ProxyView>) -> Seq<EventProxy> {
    proxies.map_values(
        |p: ProxyView| EventProxy::Write(p.addr, OutgoingProxyMessage::KeepAlive()),
    )
}

/// Survivors of a tick are no more numerous than the table, are all live,
/// carry only addresses the table had, keep pairwise distinct addresses, and
/// keep the address of every live entry.
pub proof fn lemma_surviving_props(proxies: Seq<ProxyView>, now: u64)
    ensures
        spec_surviving(proxies, now).len() <= proxies.len(),
        forall|i: int|
            0 <= i < spec_surviving(proxies, now).len() ==> spec_alive(
                #[trigger] spec_surviving(proxies, now)[i],
                now,
            ),
        forall|a: SockAddr|
            #[trigger] spec_has_addr(spec_surviving(proxies, now), a) ==> spec_has_addr(
                proxies,
                a,
            ),
        spec_addrs_unique(proxies) ==> spec_addrs_unique(spec_surviving(proxies, now)),
        spec_addrs_unique(proxies) ==> forall|i: int|
            0 <= i < proxies.len() && spec_alive(#[trigger] proxies[i], now) ==> spec_has_addr(
                spec_surviving(proxies, now),
                proxies[i].addr,
            ),
    decreases proxies.len(),
{
    let surv = spec_surviving(proxies, now);
    if proxies.len() == 0 {
    } else {
        let front = proxies.drop_last();
        let last = proxies.last();
        lemma_surviving_props(front, now);
        let sfront = spec_surviving(front, now);
        assert forall|a: SockAddr| #[trigger] spec_has_addr(surv, a) implies spec_has_addr(
            proxies,
            a,
        ) by {
            let i = choose|i: int| 0 <= i < surv.len() && surv[i].addr == a;
            if i < sfront.len() {
                assert(spec_has_addr(sfront, a));
                let j = choose|j: int| 0 <= j < front.len() && front[j].addr == a;
                assert(proxies[j].addr == a);
            } else {
                assert(surv[i] == last);
                assert(proxies[proxies.len() - 1].addr == a);
            }
        }
        if spec_addrs_unique(proxies) {
            assert(spec_addrs_unique(front)) by {
                assert(forall|i: int| 0 <= i < front.len() ==> front[i] == proxies[i]);
            }
            assert forall|i: int, j: int|
                0 <= i < j < surv.len() implies surv[i].addr != surv[j].addr by {
                if j < sfront.len() {
                } else {
                    assert(surv[j] == last);
                    assert(spec_has_addr(sfront, surv[i].addr)) by {
                        assert(sfront[i].addr == surv[i].addr);
                    }
                    assert(spec_has_addr(front, surv[i].addr));
                    let k = choose|k: int| 0 <= k < front.len() && front[k].addr == surv[i].addr;
                    assert(proxies[k].addr == surv[i].addr);
                    assert(proxies[k].addr != last.addr);
                }
            }
            assert forall|i: int|
                0 <= i < proxies.len() && spec_alive(#[trigger] proxies[i], now) implies
                spec_has_addr(surv, proxies[i].addr) by {
                if i < proxies.len() - 1 {
                    assert(front[i] == proxies[i]);
                    assert(spec_has_addr(sfront, proxies[i].addr));
                    let k = choose|k: int| 0 <= k < sfront.len() && sfront[k].addr
                        == proxies[i].addr;
                    assert(surv[k].addr == proxies[i].addr);
                } else {
                    assert(surv[surv.len() - 1] == last);
                }
            }
        }
    }
}

/// A fresh table entry for a first contact.
pub open spec fn spec_fresh_entry(addr: SockAddr, now: u64) -> ProxyView {
    ProxyView { addr, info: Seq::empty(), last_contact: now, meta: Seq::empty() }
}

/// Look up or create the entry for `addr` and stamp its `last_contact`.
pub open spec fn spec_touch(proxies: Seq<ProxyView>, addr: SockAddr, now: u64) -> Seq<ProxyView> {
    if spec_has_addr(proxies, addr) {
        let i = spec_addr_index(proxies, addr);
        proxies.update(i, ProxyView { last_contact: now, ..proxies[i] })
    } else {
        proxies.push(spec_fresh_entry(addr, now))
    }
}

/// `spec_addr_index` names the first entry with the given address.
pub proof fn lemma_addr_index(proxies: Seq<ProxyView>, addr: SockAddr)
    requires
        spec_has_addr(proxies, addr),
    ensures
        ({
            let i = spec_addr_index(proxies, addr);
            &&& 0 <= i < proxies.len()
            &&& proxies[i].addr == addr
            &&& forall|j: int| 0 <= j < i ==> proxies[j].addr != addr
        }),
    decreases proxies.len(),
{
    if proxies.len() == 0 {
    } else if proxies[0].addr == addr {
    } else {
        let rest = proxies.drop_first();
        assert(spec_has_addr(rest, addr)) by {
            let k = choose|k: int| 0 <= k < proxies.len() && proxies[k].addr == addr;
            assert(rest[k - 1].addr == addr);
        }
        lemma_addr_index(rest, addr);
        let i = spec_addr_index(proxies, addr);
        assert(proxies[i] == rest[i - 1]);
        assert forall|j: int| 0 <= j < i implies proxies[j].addr != addr by {
            if j > 0 {
                assert(proxies[j] == rest[j - 1]);
            }
        }
    }
}

/// The table, audio output, log lines, and render flag that one datagram
/// from `addr` produces: the sender's entry is created or stamped, then the
/// message is applied to it.
pub open spec fn spec_proxy_table(
    proxies: Seq<ProxyView>,
    active: Option<SockAddr>,
    addr: SockAddr,
    msg: MessageView,
    now: u64,
) -> (Seq<ProxyView>, Seq<u8>, Seq<Seq<char>>, bool) {
    if !spec_has_addr(proxies, addr) && proxies.len() >= PROXY_TABLE_MAX {
        (proxies, Seq::empty(), seq!["proxy table full"@], false)
    } else {
        let touched = spec_touch(proxies, addr, now);
        let i = spec_addr_index(touched, addr);
        match msg {
            MessageView::Audio(bytes) => (
                touched,
                if active == Some(addr) {
                    bytes
                } else {
                    Seq::empty()
                },
                Seq::empty(),
                false,
            ),
            MessageView::IAM(name) => (
                touched.update(i, ProxyView { info: name, ..touched[i] }),
                Seq::empty(),
                Seq::empty(),
                true,
            ),
            MessageView::Metadata(bytes) => (
                if bytes.len() == 0 {
                    touched
                } else if valid_utf8(bytes) {
                    touched.update(
                        i,
                        ProxyView { meta: spec_extract_meta(decode_utf8(bytes)), ..touched[i] },
                    )
                } else {
                    touched
                },
                Seq::empty(),
                if bytes.len() > 0 && !valid_utf8(bytes) {
                    seq!["could not parse metadata"@]
                } else {
                    Seq::empty()
                },
                true,
            ),
        }
    }
}

/// A datagram keeps the table within bounds, keeps addresses pairwise
/// distinct, and keeps every address the table already had.
pub proof fn lemma_proxy_table_props(
    proxies: Seq<ProxyView>,
    active: Option<SockAddr>,
    addr: SockAddr,
    msg: MessageView,
    now: u64,
)
    requires
        spec_addrs_unique(proxies),
        proxies.len() <= PROXY_TABLE_MAX,
    ensures
        ({
            let t = spec_proxy_table(proxies, active, addr, msg, now);
            &&& t.0.len() <= PROXY_TABLE_MAX
            &&& spec_addrs_unique(t.0)
            &&& forall|a: SockAddr|
                #[trigger] spec_has_addr(proxies, a) ==> spec_has_addr(t.0, a)
        }),
{
    let t = spec_proxy_table(proxies, active, addr, msg, now);
    if !spec_has_addr(proxies, addr) && proxies.len() >= PROXY_TABLE_MAX {
    } else {
        let touched = spec_touch(proxies, addr, now);
        if spec_has_addr(proxies, addr) {
            lemma_addr_index(proxies, addr);
        }
        assert(touched.len() <= PROXY_TABLE_MAX);
        assert(forall|j: int|
            0 <= j < proxies.len() ==> #[trigger] touched[j].addr == proxies[j].addr);
        assert(spec_addrs_unique(touched));
        assert forall|a: SockAddr| #[trigger] spec_has_addr(proxies, a) implies spec_has_addr(
            touched,
            a,
        ) by {
            let k = choose|k: int| 0 <= k < proxies.len() && proxies[k].addr == a;
            assert(touched[k].addr == a);
        }
        assert(spec_has_addr(touched, addr)) by {
            if spec_has_addr(proxies, addr) {
                let i = spec_addr_index(proxies, addr);
                assert(touched[i].addr == addr);
            } else {
                assert(touched[touched.len() - 1].addr == addr);
            }
        }
        lemma_addr_index(touched, addr);
        let i = spec_addr_index(touched, addr);
        assert(forall|j: int|
            0 <= j < touched.len() ==> #[trigger] t.0[j].addr == touched[j].addr);
        assert(spec_addrs_unique(t.0));
        assert forall|a: SockAddr| #[trigger] spec_has_addr(proxies, a) implies spec_has_addr(
            t.0,
            a,
        ) by {
            let k = choose|k: int| 0 <= k < touched.len() && touched[k].addr == a;
            assert(t.0[k].addr == a);
        }
    }
}

/// A copy of a table entry with the same view.
fn clone_entry(p: &ProxyInfo) -> (r: ProxyInfo)
    ensures
        r@ == p@,
{
    ProxyInfo { addr: p.addr, info: p.info.clone(), last_contact: p.last_contact, meta: p.meta.clone() }
}

impl Model {
    /// Feeds each input byte through the tokenizer and applies the command it
    /// completes, collecting Discover datagrams; stops early when the quit
    /// row is selected, leaving the remaining bytes unread.
    #[verifier::loop_isolation(false)]
    fn apply_user_input(&mut self, input: &Vec<u8>) -> (r: (Vec<EventProxy>, bool))
        requires
            spec_wf(old(self)@),
        ensures
            ({
                let o = spec_user_input(old(self)@, input@);
                &&& final(self)@ == o.model
                &&& r.0@ == o.discovers
                &&& r.1 == o.quit
            }),
    {
        let ghost orig = self@;
        let mut discovers: Vec<EventProxy> = Vec::new();
        let mut i: usize = 0;
        proof {
            assert(input@.skip(0) =~= input@);
            assert(discovers@ + spec_user_input(self@, input@).discovers =~= spec_user_input(
                self@,
                input@,
            ).discovers);
        }
        while i < input.len()
            invariant
                i <= input@.len(),
                self@.input_buf.len() <= 3,
                self@.proxies.len() <= PROXY_TABLE_MAX,
                ({
                    let total = spec_user_input(orig, input@);
                    let rest = spec_user_input(self@, input@.skip(i as int));
                    &&& total.model == rest.model
                    &&& total.discovers == discovers@ + rest.discovers
                    &&& total.quit == rest.quit
                }),
            decreases input@.len() - i,
        {
            let ghost pre = self@;
            let ghost rest_bytes = input@.skip(i as int);
            proof {
                assert(rest_bytes[0] == input@[i as int]);
                assert(rest_bytes.drop_first() =~= input@.skip(i as int + 1));
            }
            let b = input[i];
            let ghost old_discovers = discovers@;
            let ghost first = spec_user_byte(pre, b);
            let cmd = interpret_input(&mut self.input_buf, b);
            proof {
                assert(self@ =~= (ModelView { input_buf: spec_tok_window(pre.input_buf, b), ..pre }));
            }
            match cmd {
                UserInput::Up() => {
                    if self.cursor_line > i64::MIN {
                        self.cursor_line = self.cursor_line - 1;
                    }
                    proof {
                        assert(self@ =~= first.model);
                    }
                }
                UserInput::Down() => {
                    if self.cursor_line < i64::MAX {
                        self.cursor_line = self.cursor_line + 1;
                    }
                    proof {
                        assert(self@ =~= first.model);
                    }
                }
                UserInput::Select() => {
                    let len = self.proxies.len();
                    if self.cursor_line == 0 {
                        discovers.push(
                            EventProxy::Write(discover_target(), OutgoingProxyMessage::Discover()),
                        );
                        proof {
                            assert(self@ =~= first.model);
                            assert(discovers@ =~= old_discovers + first.discovers);
                        }
                    } else if self.cursor_line == (len as i64) + 1 {
                        proof {
                            assert(first.quit);
                            assert(self@ =~= first.model);
                            let total = spec_user_input(orig, input@);
                            let rest = spec_user_input(pre, rest_bytes);
                            assert(rest_bytes.len() > 0);
                            assert(spec_user_byte(pre, rest_bytes[0]) == first);
                            assert(rest == first);
                            assert(total.model == first.model);
                            assert(total.quit == first.quit);
                            assert(total.discovers =~= discovers@);
                        }
                        return (discovers, true);
                    } else if 1 <= self.cursor_line && self.cursor_line <= len as i64 {
                        let idx = (self.cursor_line - 1) as usize;
                        let chosen = self.proxies[idx].addr;
                        let toggled = match self.active_proxy {
                            Some(a) => a == chosen,
                            None => false,
                        };
                        self.active_proxy = if toggled {
                            None
                        } else {
                            Some(chosen)
                        };
                        proof {
                            assert(self@ =~= first.model);
                        }
                    } else {
                        proof {
                            assert(self@ =~= first.model);
                        }
                    }
                }
                UserInput::Unrecognized() => {
                    proof {
                        assert(self@ =~= first.model);
                    }
                }
            }
            proof {
                if !(cmd matches UserInput::Select() && pre.cursor_line == 0) {
                    assert(discovers@ =~= old_discovers + first.discovers);
                }
                let total = spec_user_input(orig, input@);
                let rest2 = spec_user_input(self@, input@.skip(i as int + 1));
                assert(total.discovers =~= discovers@ + rest2.discovers) by {
                    assert(old_discovers + (first.discovers + rest2.discovers) =~= (old_discovers
                        + first.discovers) + rest2.discovers);
                }
            }
            i += 1;
        }
        proof {
            assert(input@.skip(input@.len() as int) =~= Seq::<u8>::empty());
            let total = spec_user_input(orig, input@);
            assert(total.discovers =~= discovers@);
        }
        (discovers, false)
    }

    /// Applies one datagram from `addr`: the sender's entry is created or
    /// stamped, then the message is applied to it.
    fn apply_proxy_input(&mut self, addr: SockAddr, msg: IncomingProxyMessage, now: u64) -> (r: (
        Vec<u8>,
        Vec<String>,
        bool,
    ))
        requires
            spec_addrs_unique(old(self)@.proxies),
            old(self)@.proxies.len() <= PROXY_TABLE_MAX,
        ensures
            ({
                let t = spec_proxy_table(
                    old(self)@.proxies,
                    old(self)@.active_proxy,
                    addr,
                    msg@,
                    now,
                );
                &&& final(self)@ == (ModelView { proxies: t.0, ..old(self)@ })
                &&& r.0@ == t.1
                &&& r.1@.map_values(|l: String| l@) == t.2
                &&& r.2 == t.3
            }),
    {
        let ghost orig = self@.proxies;
        let ghost msgv = msg@;
        let ghost t = spec_proxy_table(orig, self@.active_proxy, addr, msgv, now);
        let len = self.proxies.len();
        let mut idx: usize = 0;
        let mut found = false;
        let mut j: usize = 0;
        while j < len
            invariant
                j <= len,
                len == orig.len(),
                orig == proxy_views(self.proxies@),
                !found ==> forall|k: int| 0 <= k < j ==> orig[k].addr != addr,
                found ==> idx < j && orig[idx as int].addr == addr && forall|k: int|
                    0 <= k < idx ==> orig[k].addr != addr,
            decreases len - j,
        {
            if !found {
                if self.proxies[j].addr == addr {
                    found = true;
                    idx = j;
                }
            }
            j += 1;
        }
        proof {
            if found {
                assert(spec_has_addr(orig, addr));
                lemma_addr_index(orig, addr);
                assert(spec_addr_index(orig, addr) == idx as int);
            } else {
                assert(!spec_has_addr(orig, addr));
            }
        }
        if !found && len >= PROXY_TABLE_MAX {
            let mut logs: Vec<String> = Vec::new();
            logs.push("proxy table full".to_owned());
            proof {
                assert(self@ =~= (ModelView { proxies: t.0, ..old(self)@ }));
                assert(logs@.map_values(|l: String| l@) =~= seq!["proxy table full"@]);
                assert(Seq::<u8>::empty() =~= t.1);
            }
            return (Vec::new(), logs, false);
        }
        if found {
            let entry = ProxyInfo {
                addr: self.proxies[idx].addr,
                info: self.proxies[idx].info.clone(),
                last_contact: now,
                meta: self.proxies[idx].meta.clone(),
            };
            self.proxies[idx] = entry;
        } else {
            idx = self.proxies.len();
            self.proxies.push(
                ProxyInfo { addr, info: String::new(), last_contact: now, meta: String::new() },
            );
        }
        let ghost touched = spec_touch(orig, addr, now);
        proof {
            assert(proxy_views(self.proxies@) =~= touched);
            assert(spec_has_addr(touched, addr)) by {
                assert(touched[idx as int].addr == addr);
            }
            lemma_addr_index(touched, addr);
            assert(spec_addr_index(touched, addr) == idx as int);
        }
        match msg {
            IncomingProxyMessage::Audio(bytes) => {
                let is_active = match self.active_proxy {
                    Some(a) => a == addr,
                    None => false,
                };
                let audio = if is_active {
                    bytes
                } else {
                    Vec::new()
                };
                proof {
                    assert(self@ =~= (ModelView { proxies: t.0, ..old(self)@ }));
                    assert(audio@ == t.1);
                    assert(Seq::<String>::empty().map_values(|l: String| l@) =~= t.2);
                }
                (audio, Vec::new(), false)
            }
            IncomingProxyMessage::IAM(name) => {
                let entry = ProxyInfo {
                    addr: self.proxies[idx].addr,
                    info: name,
                    last_contact: self.proxies[idx].last_contact,
                    meta: self.proxies[idx].meta.clone(),
                };
                self.proxies[idx] = entry;
                proof {
                    assert(proxy_views(self.proxies@) =~= t.0);
                    assert(self@ =~= (ModelView { proxies: t.0, ..old(self)@ }));
                    assert(Seq::<String>::empty().map_values(|l: String| l@) =~= t.2);
                    assert(Seq::<u8>::empty() =~= t.1);
                }
                (Vec::new(), Vec::new(), true)
            }
            IncomingProxyMessage::Metadata(bytes) => {
                if bytes.len() == 0 {
                    proof {
                        assert(self@ =~= (ModelView { proxies: t.0, ..old(self)@ }));
                        assert(Seq::<String>::empty().map_values(|l: String| l@) =~= t.2);
                        assert(Seq::<u8>::empty() =~= t.1);
                    }
                    (Vec::new(), Vec::new(), true)
                } else {
                    match utf8_to_string(bytes.as_slice()) {
                        Some(text) => {
                            let meta = extract_meta(text.as_str());
                            let entry = ProxyInfo {
                                addr: self.proxies[idx].addr,
                                info: self.proxies[idx].info.clone(),
                                last_contact: self.proxies[idx].last_contact,
                                meta,
                            };
                            self.proxies[idx] = entry;
                            proof {
                                assert(proxy_views(self.proxies@) =~= t.0);
                                assert(self@ =~= (ModelView { proxies: t.0, ..old(self)@ }));
                                assert(Seq::<String>::empty().map_values(|l: String| l@) =~= t.2);
                                assert(Seq::<u8>::empty() =~= t.1);
                            }
                            (Vec::new(), Vec::new(), true)
                        }
                        None => {
                            let mut logs: Vec<String> = Vec::new();
                            logs.push("could not parse metadata".to_owned());
                            proof {
                                assert(self@ =~= (ModelView { proxies: t.0, ..old(self)@ }));
                                assert(logs@.map_values(|l: String| l@) =~= seq![
                                    "could not parse metadata"@,
                                ]);
                                assert(Seq::<u8>::empty() =~= t.1);
                            }
                            (Vec::new(), logs, true)
                        }
                    }
                }
            }
        }
    }

    /// Removes every entry whose proxy has been silent for the timeout and
    /// returns one KeepAlive per surviving entry, in table order.
    fn apply_tick(&mut self, now: u64) -> (r: Vec<EventProxy>)
        ensures
            final(self)@ == (ModelView {
                proxies: spec_surviving(old(self)@.proxies, now),
                ..old(self)@
            }),
            r@ == spec_keepalives(spec_surviving(old(self)@.proxies, now)),
    {
        let ghost orig = self@.proxies;
        let mut kept: Vec<ProxyInfo> = Vec::new();
        let mut i: usize = 0;
        proof {
            assert(orig.take(0) =~= Seq::<ProxyView>::empty());
            assert(proxy_views(kept@) =~= spec_surviving(orig.take(0), now));
        }
        while i < self.proxies.len()
            invariant
                i <= self.proxies@.len(),
                orig == proxy_views(self.proxies@),
                proxy_views(kept@) == spec_surviving(orig.take(i as int), now),
            decreases self.proxies@.len() - i,
        {
            let ghost old_kept = kept@;
            let last_contact = self.proxies[i].last_contact;
            let alive = last_contact > now || now - last_contact < TIMEOUT_MS;
            proof {
                assert(alive == spec_alive(orig[i as int], now));
                assert(orig.take(i as int + 1).drop_last() =~= orig.take(i as int));
                assert(orig.take(i as int + 1).last() == orig[i as int]);
            }
            if alive {
                let entry = clone_entry(&self.proxies[i]);
                kept.push(entry);
            }
            proof {
                assert(proxy_views(kept@) =~= spec_surviving(orig.take(i as int + 1), now));
            }
            i += 1;
        }
        proof {
            assert(orig.take(self.proxies@.len() as int) =~= orig);
        }
        self.proxies = kept;
        let ghost survivors = spec_surviving(orig, now);
        proof {
            assert(self@ =~= (ModelView { proxies: survivors, ..old(self)@ }));
        }
        let mut out: Vec<EventProxy> = Vec::new();
        let mut j: usize = 0;
        proof {
            assert(out@ =~= spec_keepalives(survivors.take(0)));
        }
        while j < self.proxies.len()
            invariant
                j <= self.proxies@.len(),
                survivors == proxy_views(self.proxies@),
                out@ == spec_keepalives(survivors.take(j as int)),
            decreases self.proxies@.len() - j,
        {
            out.push(EventProxy::Write(self.proxies[j].addr, OutgoingProxyMessage::KeepAlive()));
            proof {
                assert(survivors.take(j as int + 1).drop_last() =~= survivors.take(j as int));
                assert(out@ =~= spec_keepalives(survivors.take(j as int + 1)));
            }
            j += 1;
        }
        proof {
            assert(survivors.take(self.proxies@.len() as int) =~= survivors);
        }
        out
    }

    /// Forces the cursor back onto a menu row.
    fn clamp_cursor(&mut self)
        requires
            old(self)@.proxies.len() <= PROXY_TABLE_MAX,
        ensures
            final(self)@ == (ModelView {
                cursor_line: spec_clamp_cursor(
                    old(self)@.cursor_line,
                    old(self)@.proxies.len() as int,
                ),
                ..old(self)@
            }),
    {
        let len = self.proxies.len();
        if self.cursor_line < 0 {
            self.cursor_line = 0;
        } else {
            let hi = (len as i64) + 1;
            if self.cursor_line > hi {
                self.cursor_line = hi;
            }
        }
        proof {
            assert(self@ =~= (ModelView {
                cursor_line: spec_clamp_cursor(old(self)@.cursor_line, len as int),
                ..old(self)@
            }));
        }
    }

    /// One screen paint of the current state.
    fn render_step(&self) -> (r: Vec<u8>)
        requires
            0 <= self@.cursor_line <= self@.proxies.len() + 1,
            self@.proxies.len() <= PROXY_TABLE_MAX,
        ensures
            r@ == spec_render_bytes(self@),
    {
        let screen = generate_ui(&self.proxies, &self.active_proxy, self.cursor_line);
        render(screen.as_str())
    }
}

/// The step of one UserInput event: the bytes run through the tokenizer; on
/// a quit the loop ends with the remaining bytes unread and nothing painted,
/// otherwise the cursor is clamped and the screen repainted.
pub open spec fn spec_step_user(pre: ModelView, bytes: Seq<u8>) -> StepView {
    let o = spec_user_input(pre, bytes);
    if o.quit {
        StepView {
            model: o.model,
            proxy_out: o.discovers,
            telnet_out: Seq::empty(),
            audio_out: Seq::empty(),
            logs: Seq::empty(),
            control: ControlView::Quit,
        }
    } else {
        let m2 = ModelView {
            cursor_line: spec_clamp_cursor(o.model.cursor_line, o.model.proxies.len() as int),
            ..o.model
        };
        StepView {
            model: m2,
            proxy_out: o.discovers,
            telnet_out: seq![spec_render_bytes(m2)],
            audio_out: Seq::empty(),
            logs: Seq::empty(),
            control: ControlView::Continue,
        }
    }
}

/// The step of one datagram: the table is updated, the cursor clamped, and
/// the screen repainted unless the datagram was audio.
pub open spec fn spec_step_proxy(
    pre: ModelView,
    addr: SockAddr,
    msg: MessageView,
    now: u64,
) -> StepView {
    let t = spec_proxy_table(pre.proxies, pre.active_proxy, addr, msg, now);
    let m2 = ModelView {
        proxies: t.0,
        cursor_line: spec_clamp_cursor(pre.cursor_line, t.0.len() as int),
        ..pre
    };
    StepView {
        model: m2,
        proxy_out: Seq::empty(),
        telnet_out: if t.3 {
            seq![spec_render_bytes(m2)]
        } else {
            Seq::empty()
        },
        audio_out: t.1,
        logs: t.2,
        control: ControlView::Continue,
    }
}

/// The step of one tick: silent proxies are dropped, every survivor gets a
/// KeepAlive, and the screen is repainted exactly when the count changed.
pub open spec fn spec_step_tick(pre: ModelView, now: u64) -> StepView {
    let survivors = spec_surviving(pre.proxies, now);
    let m2 = ModelView {
        proxies: survivors,
        cursor_line: spec_clamp_cursor(pre.cursor_line, survivors.len() as int),
        ..pre
    };
    StepView {
        model: m2,
        proxy_out: spec_keepalives(survivors),
        telnet_out: if survivors.len() != pre.proxies.len() {
            seq![spec_render_bytes(m2)]
        } else {
            Seq::empty()
        },
        audio_out: Seq::empty(),
        logs: Seq::empty(),
        control: ControlView::Continue,
    }
}

/// The step of a fresh telnet connection: the option-negotiation bytes are
/// sent, then a screen paint.
pub open spec fn spec_step_conn(pre: ModelView) -> StepView {
    let m2 = ModelView {
        cursor_line: spec_clamp_cursor(pre.cursor_line, pre.proxies.len() as int),
        ..pre
    };
    StepView {
        model: m2,
        proxy_out: Seq::empty(),
        telnet_out: seq![spec_screen_options(), spec_render_bytes(m2)],
        audio_out: Seq::empty(),
        logs: Seq::empty(),
        control: ControlView::Continue,
    }
}

/// The step of a worker crash: the loop ends at once with a fatal message
/// and no further effects.
pub open spec fn spec_step_crash(pre: ModelView, message: Seq<char>) -> StepView {
    StepView {
        model: pre,
        proxy_out: Seq::empty(),
        telnet_out: Seq::empty(),
        audio_out: Seq::empty(),
        logs: Seq::empty(),
        control: ControlView::Fatal(message),
    }
}

/// What one event does to the model and what effects it asks for.
pub open spec fn spec_step(pre: ModelView, event: EventModelView, now: u64) -> StepView {
    match event {
        EventModelView::UserInput(bytes) => spec_step_user(pre, bytes),
        EventModelView::ProxyInput(addr, msg) => spec_step_proxy(pre, addr, msg, now),
        EventModelView::Tick => spec_step_tick(pre, now),
        EventModelView::NewTelnetConnection => spec_step_conn(pre),
        EventModelView::ProxyServerCrashed(reason) => spec_step_crash(
            pre,
            "proxy server crashed\n"@ + reason,
        ),
        EventModelView::TelnetServerCrashed(reason) => spec_step_crash(
            pre,
            "telnet server crashed\n"@ + reason,
        ),
    }
}

impl Model {
    /// Handles one event to completion: the state changes exactly as
    /// [`spec_step`] describes, and the returned [`Step`] carries the effects
    /// the surrounding process must perform, in order.
    ///
    /// As long as the loop continues the state stays well formed; in
    /// particular the cursor stays on a menu row.  Every event but a tick
    /// keeps the active proxy an address of some table entry, and a tick
    /// keeps it one as long as the active entry is still live.  After a
    /// tick, every surviving entry was heard from within the timeout, and
    /// exactly the survivors are sent a KeepAlive, in table order.
    pub fn handle_event(&mut self, event: EventModel, now_ms: u64) -> (r: Step)
        requires
            spec_wf(old(self)@),
        ensures
            spec_step_matches(final(self)@, r, spec_step(old(self)@, event@, now_ms)),
            r.control@ is Continue ==> spec_wf(final(self)@),
            !(event@ is Tick) && spec_active_ok(old(self)@) ==> spec_active_ok(final(self)@),
            event@ is Tick && (match old(self)@.active_proxy {
                None => true,
                Some(a) => exists|i: int|
                    0 <= i < old(self)@.proxies.len() && old(self)@.proxies[i].addr == a
                        && spec_alive(#[trigger] old(self)@.proxies[i], now_ms),
            }) ==> spec_active_ok(final(self)@),
            event@ is Tick ==> forall|i: int|
                0 <= i < final(self)@.proxies.len() ==> now_ms
                    - (#[trigger] final(self)@.proxies[i]).last_contact < TIMEOUT_MS,
            event@ is Tick ==> r.proxy_out@ == spec_keepalives(final(self)@.proxies),
    {
        let ghost pre = self@;
        match event {
            EventModel::UserInput(input) => {
                let (discovers, quit) = self.apply_user_input(&input);
                proof {
                    lemma_user_input_props(pre, input@);
                }
                if quit {
                    let r = Step {
                        proxy_out: discovers,
                        telnet_out: Vec::new(),
                        audio_out: Vec::new(),
                        logs: Vec::new(),
                        control: Control::Quit(),
                    };
                    proof {
                        let s = spec_step(pre, EventModelView::UserInput(input@), now_ms);
                        assert(r.telnet_out@.map_values(|e: EventTelnet| e.bytes())
                            =~= s.telnet_out);
                        assert(r.logs@.map_values(|l: String| l@) =~= s.logs);
                    }
                    r
                } else {
                    self.clamp_cursor();
                    let paint = self.render_step();
                    let mut telnet_out: Vec<EventTelnet> = Vec::new();
                    telnet_out.push(EventTelnet::Write(paint));
                    let r = Step {
                        proxy_out: discovers,
                        telnet_out,
                        audio_out: Vec::new(),
                        logs: Vec::new(),
                        control: Control::Continue(),
                    };
                    proof {
                        let s = spec_step(pre, EventModelView::UserInput(input@), now_ms);
                        assert(self@ =~= s.model);
                        assert(r.telnet_out@.map_values(|e: EventTelnet| e.bytes())
                            =~= s.telnet_out);
                        assert(r.logs@.map_values(|l: String| l@) =~= s.logs);
                    }
                    r
                }
            }
            EventModel::ProxyInput(pair) => {
                let (peer, msg) = pair;
                let ghost msgv = msg@;
                let (audio, logs, repaint) = self.apply_proxy_input(peer, msg, now_ms);
                proof {
                    lemma_proxy_table_props(pre.proxies, pre.active_proxy, peer, msgv, now_ms);
                }
                self.clamp_cursor();
                let mut telnet_out: Vec<EventTelnet> = Vec::new();
                if repaint {
                    let paint = self.render_step();
                    telnet_out.push(EventTelnet::Write(paint));
                }
                let r = Step {
                    proxy_out: Vec::new(),
                    telnet_out,
                    audio_out: audio,
                    logs,
                    control: Control::Continue(),
                };
                proof {
                    let s = spec_step(pre, EventModelView::ProxyInput(peer, msgv), now_ms);
                    assert(self@ =~= s.model);
                    assert(r.telnet_out@.map_values(|e: EventTelnet| e.bytes()) =~= s.telnet_out);
                    assert(r.proxy_out@ =~= s.proxy_out);
                }
                r
            }
            EventModel::Tick() => {
                let prev_len = self.proxies.len();
                let keepalives = self.apply_tick(now_ms);
                proof {
                    lemma_surviving_props(pre.proxies, now_ms);
                }
                self.clamp_cursor();
                let mut telnet_out: Vec<EventTelnet> = Vec::new();
                if self.proxies.len() != prev_len {
                    let paint = self.render_step();
                    telnet_out.push(EventTelnet::Write(paint));
                }
                let r = Step {
                    proxy_out: keepalives,
                    telnet_out,
                    audio_out: Vec::new(),
                    logs: Vec::new(),
                    control: Control::Continue(),
                };
                proof {
                    let s = spec_step_tick(pre, now_ms);
                    assert(self@ =~= s.model);
                    assert(r.telnet_out@.map_values(|e: EventTelnet| e.bytes()) =~= s.telnet_out);
                    assert(r.logs@.map_values(|l: String| l@) =~= s.logs);
                }
                r
            }
            EventModel::NewTelnetConnection() => {
                self.clamp_cursor();
                let mut telnet_out: Vec<EventTelnet> = Vec::new();
                telnet_out.push(EventTelnet::Write(prepare_screen()));
                let paint = self.render_step();
                telnet_out.push(EventTelnet::Write(paint));
                let r = Step {
                    proxy_out: Vec::new(),
                    telnet_out,
                    audio_out: Vec::new(),
                    logs: Vec::new(),
                    control: Control::Continue(),
                };
                proof {
                    let s = spec_step_conn(pre);
                    assert(self@ =~= s.model);
                    assert(r.telnet_out@.map_values(|e: EventTelnet| e.bytes()) =~= s.telnet_out);
                    assert(r.logs@.map_values(|l: String| l@) =~= s.logs);
                }
                r
            }
            EventModel::ProxyServerCrashed(reason) => {
                let mut message = "proxy server crashed\n".to_owned();
                message.append(reason.as_str());
                let r = Step {
                    proxy_out: Vec::new(),
                    telnet_out: Vec::new(),
                    audio_out: Vec::new(),
                    logs: Vec::new(),
                    control: Control::Fatal(message),
                };
                proof {
                    let s = spec_step(pre, EventModelView::ProxyServerCrashed(reason@), now_ms);
                    assert(r.telnet_out@.map_values(|e: EventTelnet| e.bytes()) =~= s.telnet_out);
                    assert(r.logs@.map_values(|l: String| l@) =~= s.logs);
                }
                r
            }
            EventModel::TelnetServerCrashed(reason) => {
                let mut message = "telnet server crashed\n".to_owned();
                message.append(reason.as_str());
                let r = Step {
                    proxy_out: Vec::new(),
                    telnet_out: Vec::new(),
                    audio_out: Vec::new(),
                    logs: Vec::new(),
                    control: Control::Fatal(message),
                };
                proof {
                    let s = spec_step(pre, EventModelView::TelnetServerCrashed(reason@), now_ms);
                    assert(r.telnet_out@.map_values(|e: EventTelnet| e.bytes()) =~= s.telnet_out);
                    assert(r.logs@.map_values(|l: String| l@) =~= s.logs);
                }
                r
            }
        }
    }
}

} // verus!
