use crate::addr::SockAddr;
use crate::model::{proxy_views, ProxyInfo, ProxyView};
use vstd::prelude::*;
use vstd::string::{StringExecFns, StringSliceAdditionalSpecFns};

verus! {

/// The menu command recognized in a keystroke window.
#[derive(Clone, Copy, Debug, PartialEq, Eq, Structural)]
pub enum UserInput {
    Up(),
    Down(),
    Select(),
    Unrecognized(),
}

/// The telnet option-negotiation bytes sent once per connection: do linemode,
/// the linemode option block, then will echo.
pub open spec fn spec_screen_options() -> Seq<u8> {
    seq![255u8, 253u8, 34u8, 255u8, 250u8, 34u8, 1u8, 0u8, 255u8, 240u8, 255u8, 251u8, 1u8]
}

/// The clear-screen escape sequence sent before every screen paint.
pub open spec fn spec_clear_screen() -> Seq<u8> {
    seq![27u8, 91u8, 72u8, 27u8, 91u8, 50u8, 74u8]
}

/// Builds the option-negotiation bytes that put a telnet client into line
/// mode with echo.
pub fn prepare_screen() -> (r: Vec<u8>)
    ensures
        r@ == spec_screen_options(),
{
    let mut v: Vec<u8> = Vec::new();
    v.push(255);
    v.push(253);
    v.push(34);
    v.push(255);
    v.push(250);
    v.push(34);
    v.push(1);
    v.push(0);
    v.push(255);
    v.push(240);
    v.push(255);
    v.push(251);
    v.push(1);
    assert(v@ =~= spec_screen_options());
    v
}

/// Builds a screen paint: the clear-screen sequence followed by the UTF-8
/// bytes of the given text.
pub fn render(text: &str) -> (r: Vec<u8>)
    ensures
        r@ == spec_clear_screen() + text.spec_bytes(),
{
    let mut v: Vec<u8> = Vec::new();
    v.push(27);
    v.push(91);
    v.push(72);
    v.push(27);
    v.push(91);
    v.push(50);
    v.push(74);
    v.extend_from_slice(text.as_bytes());
    assert(v@ =~= spec_clear_screen() + text.spec_bytes());
    v
}

/// The keystroke window after one more byte arrives: the byte is prepended
/// and the window keeps at most the three most recent bytes, newest first.
pub open spec fn spec_tok_window(buf: Seq<u8>, input: u8) -> Seq<u8>
    recommends
        buf.len() <= 3,
{
    if buf.len() >= 3 {
        seq![input] + buf.take(2)
    } else {
        seq![input] + buf
    }
}

/// The command a keystroke window stands for, by longest-prefix match on the
/// newest-first bytes: `ESC [ A` is Up, `ESC [ B` is Down, and a carriage
/// return followed by NUL or line feed is Select.
pub open spec fn spec_classify(buf: Seq<u8>) -> UserInput {
    if buf.len() >= 3 && buf[0] == 65 && buf[1] == 91 && buf[2] == 27 {
        UserInput::Up()
    } else if buf.len() >= 3 && buf[0] == 66 && buf[1] == 91 && buf[2] == 27 {
        UserInput::Down()
    } else if buf.len() >= 2 && (buf[0] == 0 || buf[0] == 10) && buf[1] == 13 {
        UserInput::Select()
    } else {
        UserInput::Unrecognized()
    }
}

/// Pushes one input byte into the keystroke window and classifies the result.
pub fn interpret_input(buf: &mut Vec<u8>, input: u8) -> (r: UserInput)
    requires
        old(buf)@.len() <= 3,
    ensures
        final(buf)@ == spec_tok_window(old(buf)@, input),
        final(buf)@.len() <= 3,
        r == spec_classify(final(buf)@),
{
    if buf.len() >= 3 {
        let _ = buf.pop();
    }
    buf.insert(0, input);
    assert(buf@ =~= spec_tok_window(old(buf)@, input));
    if buf.len() >= 3 && buf[0] == 65 && buf[1] == 91 && buf[2] == 27 {
        UserInput::Up()
    } else if buf.len() >= 3 && buf[0] == 66 && buf[1] == 91 && buf[2] == 27 {
        UserInput::Down()
    } else if buf.len() >= 2 && (buf[0] == 0 || buf[0] == 10) && buf[1] == 13 {
        UserInput::Select()
    } else {
        UserInput::Unrecognized()
    }
}

/// One keystroke window is pushed through a whole byte sequence; feeding the
/// Up escape sequence produces exactly one Up, and whatever byte follows it
/// is Unrecognized.
pub proof fn lemma_tokenizer_escape_sequence(buf: Seq<u8>, next: u8)
    requires
        buf.len() <= 3,
    ensures
        spec_classify(spec_tok_window(buf, 27)) == UserInput::Unrecognized(),
        spec_classify(spec_tok_window(spec_tok_window(buf, 27), 91)) == UserInput::Unrecognized(),
        spec_classify(
            spec_tok_window(spec_tok_window(spec_tok_window(buf, 27), 91), 65),
        ) == UserInput::Up(),
        spec_classify(
            spec_tok_window(
                spec_tok_window(spec_tok_window(spec_tok_window(buf, 27), 91), 65),
                next,
            ),
        ) == UserInput::Unrecognized(),
{
}

/// The `meta` string of the first table entry whose address is the active
/// one, or empty when no entry matches.
pub open spec fn spec_active_meta(proxies: Seq<ProxyView>, active: Option<SockAddr>) -> Seq<char>
    decreases proxies.len(),
{
    if proxies.len() == 0 {
        Seq::empty()
    } else if active == Some(proxies[0].addr) {
        proxies[0].meta
    } else {
        spec_active_meta(proxies.drop_first(), active)
    }
}

/// Row `i` of the menu: the search row, one row per proxy with a star on the
/// active one, the quit row, then the active proxy's metadata.
pub open spec fn spec_row(proxies: Seq<ProxyView>, active: Option<SockAddr>, i: int) -> Seq<char>
    recommends
        0 <= i < proxies.len() + 3,
{
    if i == 0 {
        "Szukaj pośrednika"@
    } else if i <= proxies.len() {
        "Pośrednik "@ + proxies[i - 1].info + (if active == Some(proxies[i - 1].addr) {
            " *"@
        } else {
            Seq::<char>::empty()
        })
    } else if i == proxies.len() + 1 {
        "Koniec"@
    } else {
        spec_active_meta(proxies, active)
    }
}

/// The first `n` rows of the screen, each with the cursor suffix on the row
/// the cursor points at and a trailing carriage return and line feed.
pub open spec fn spec_screen_prefix(
    proxies: Seq<ProxyView>,
    active: Option<SockAddr>,
    cursor: int,
    n: int,
) -> Seq<char>
    decreases n,
{
    if n <= 0 {
        Seq::empty()
    } else {
        spec_screen_prefix(proxies, active, cursor, n - 1) + spec_row(proxies, active, n - 1) + (
        if n - 1 == cursor {
            " <-"@
        } else {
            Seq::<char>::empty()
        }) + "\r\n"@
    }
}

/// The whole screen: all `proxies.len() + 3` rows.
pub open spec fn spec_screen(
    proxies: Seq<ProxyView>,
    active: Option<SockAddr>,
    cursor: int,
) -> Seq<char> {
    spec_screen_prefix(proxies, active, cursor, proxies.len() + 3 as int)
}

/// Returns the `meta` string of the first entry whose address is the active
/// one, or an empty string.
fn active_meta(proxies: &Vec<ProxyInfo>, active_proxy: &Option<SockAddr>) -> (r: String)
    ensures
        r@ == spec_active_meta(proxy_views(proxies@), *active_proxy),
{
    let ghost pviews = proxy_views(proxies@);
    assert(pviews.skip(0) =~= pviews);
    let mut j: usize = 0;
    while j < proxies.len()
        invariant
            j <= proxies@.len(),
            pviews == proxy_views(proxies@),
            spec_active_meta(pviews, *active_proxy) == spec_active_meta(
                pviews.skip(j as int),
                *active_proxy,
            ),
        decreases proxies@.len() - j,
    {
        let here = match active_proxy {
            Some(a) => *a == proxies[j].addr,
            None => false,
        };
        if here {
            assert(pviews.skip(j as int)[0] == pviews[j as int]);
            return proxies[j].meta.clone();
        }
        assert(pviews.skip(j as int).drop_first() =~= pviews.skip(j as int + 1));
        j += 1;
    }
    assert(pviews.skip(j as int) =~= Seq::<ProxyView>::empty());
    String::new()
}

/// Builds the newline-terminated menu screen: the search row, one row per
/// proxy (starred when active), the quit row, and the active proxy's
/// metadata, with ` <-` appended to the row the cursor points at.
pub fn generate_ui(
    proxies: &Vec<ProxyInfo>,
    active_proxy: &Option<SockAddr>,
    cursor_line: i64,
) -> (r: String)
    requires
        0 <= cursor_line < proxy_views(proxies@).len() + 3,
        proxies@.len() + 3 <= usize::MAX,
    ensures
        r@ == spec_screen(proxy_views(proxies@), *active_proxy, cursor_line as int),
{
    let ghost pviews = proxy_views(proxies@);
    let n = proxies.len() + 3;
    let mut out = String::new();
    let mut i: usize = 0;
    while i < n
        invariant
            n == proxies@.len() + 3,
            i <= n,
            0 <= cursor_line < n,
            pviews == proxy_views(proxies@),
            out@ == spec_screen_prefix(pviews, *active_proxy, cursor_line as int, i as int),
        decreases n - i,
    {
        let ghost row = spec_row(pviews, *active_proxy, i as int);
        if i == 0 {
            out.append("Szukaj pośrednika");
        } else if i <= proxies.len() {
            out.append("Pośrednik ");
            out.append(proxies[i - 1].info.as_str());
            let here = match active_proxy {
                Some(a) => *a == proxies[i - 1].addr,
                None => false,
            };
            if here {
                out.append(" *");
            }
        } else if i == proxies.len() + 1 {
            out.append("Koniec");
        } else {
            let meta = active_meta(proxies, active_proxy);
            out.append(meta.as_str());
        }
        assert(out@ =~= spec_screen_prefix(pviews, *active_proxy, cursor_line as int, i as int)
            + row);
        if cursor_line as usize == i {
            out.append(" <-");
        }
        out.append("\r\n");
        assert(out@ =~= spec_screen_prefix(
            pviews,
            *active_proxy,
            cursor_line as int,
            i as int + 1,
        ));
        i += 1;
    }
    out
}

} // verus!
