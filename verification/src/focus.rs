use vstd::prelude::*;

use crate::text::{chars_of, owned, push_char, same};

verus! {

/// The KWin script before the first bus address.
pub const SCRIPT_HEAD: &'static str = "\nfunction report(payload) {\n    callDBus(\"";

/// The KWin script between the two bus addresses.
pub const SCRIPT_MIDDLE: &'static str = "\", \"/\", \"\", \"result\", payload.toString());\n}\nfunction report_err(msg) {\n    callDBus(\"";

/// The KWin script after the second bus address.
pub const SCRIPT_TAIL: &'static str = "\", \"/\", \"\", \"error\", msg.toString());\n}\ntry {\n    let w = workspace.activeWindow;\n    if (w == null) {\n        report(JSON.stringify({ app_id: \"\", fullscreen: false, cursor_inside: false }));\n    } else {\n        let cur = workspace.cursorPos;\n        let geo = w.frameGeometry;\n        let inside = cur.x >= geo.x && cur.x < geo.x + geo.width &&\n                     cur.y >= geo.y && cur.y < geo.y + geo.height;\n        report(JSON.stringify({\n            app_id: (w.resourceClass || \"\").toString(),\n            fullscreen: !!w.fullScreen,\n            cursor_inside: inside,\n        }));\n    }\n} catch (e) {\n    report_err(e.toString());\n}\n";

/// The KWin script that reports the active window (app id, fullscreen, cursor inside) by
/// calling back the bus name `dbus_addr`, or reports the error it met.
pub fn generate_script(dbus_addr: &str) -> (r: String)
    ensures
        r@ == SCRIPT_HEAD@ + dbus_addr@ + SCRIPT_MIDDLE@ + dbus_addr@ + SCRIPT_TAIL@,
{
    let mut r = owned(SCRIPT_HEAD);
    r.append(dbus_addr);
    r.append(SCRIPT_MIDDLE);
    r.append(dbus_addr);
    r.append(SCRIPT_TAIL);
    r
}

/// The char of a decimal digit.
pub open spec fn digit_char(d: int) -> char {
    (48 + d) as char
}

/// The decimal digits of `n`, most significant first, with no leading zeros.
pub open spec fn decimal(n: nat) -> Seq<char>
    decreases n,
{
    if n < 10 {
        seq![digit_char(n as int)]
    } else {
        decimal(n / 10) + seq![digit_char((n % 10) as int)]
    }
}

pub fn push_decimal(n: u128, out: &mut String)
    ensures
        final(out)@ == old(out)@ + decimal(n as nat),
    decreases n,
{
    if n >= 10 {
        push_decimal(n / 10, out);
    }
    let d: u8 = (n % 10) as u8;
    let c: char = (d + 48) as char;
    push_char(out, c);
    proof {
        assert(old(out)@ + decimal(n as nat) =~= if n >= 10 {
            old(out)@ + decimal((n / 10) as nat) + seq![c]
        } else {
            old(out)@ + seq![c]
        });
    }
}

/// The name under which the focus script is loaded: `arcglyph-focus-` and a unique suffix.
pub fn script_name(suffix: u128) -> (r: String)
    ensures
        r@ == "arcglyph-focus-"@ + decimal(suffix as nat),
{
    let mut r = owned("arcglyph-focus-");
    push_decimal(suffix, &mut r);
    r
}

/// What the focus script sent back.
#[derive(Debug, Clone)]
pub enum ScriptReply {
    Result(String),
    Error(String),
}

/// The reply that a call from the focus script stands for: a `result` call carries the
/// payload, an `error` call the error; calls by any other name are none.
pub fn reply_for_call(member: &str, arg: String) -> (r: Option<ScriptReply>)
    ensures
        member@ == "result"@ ==> (r matches Some(ScriptReply::Result(p)) && p@ == arg@),
        member@ != "result"@ && member@ == "error"@ ==> (r matches Some(ScriptReply::Error(e))
            && e@ == arg@),
        member@ != "result"@ && member@ != "error"@ ==> r is None,
{
    let m = chars_of(member);
    let res = chars_of("result");
    let err = chars_of("error");
    if same(m.as_slice(), res.as_slice()) {
        Some(ScriptReply::Result(arg))
    } else if same(m.as_slice(), err.as_slice()) {
        Some(ScriptReply::Error(arg))
    } else {
        None
    }
}

/// The id KWin gave the loaded script, or, when it is negative (loading failed),
/// "loadScript returned " and the id.
pub fn loaded_script_id(id: i32) -> (r: Result<i32, String>)
    ensures
        id >= 0 ==> r == Ok::<i32, String>(id),
        id < 0 ==> (r matches Err(m) && m@ == "loadScript returned -"@ + decimal((-id) as nat)),
{
    if id >= 0 {
        Ok(id)
    } else {
        let mut m = owned("loadScript returned -");
        let magnitude: i64 = -(id as i64);
        push_decimal(magnitude as u128, &mut m);
        Err(m)
    }
}

/// What a look at the reply channel found.
#[derive(Debug, Clone)]
pub enum ReplyPoll {
    Got(ScriptReply),
    Empty,
    Disconnected,
}

/// The next step of waiting for the focus script.
#[derive(Debug, PartialEq, Eq)]
pub enum ReplyStep {
    /// Stop waiting: the payload, or why there is none.
    Done(Result<String, String>),
    /// Look again.
    Wait,
}

/// How long to wait for the focus script before giving up, in milliseconds.
pub const REPLY_TIMEOUT_MS: u64 = 500;

/// Decides, after one look at the reply channel, whether the wait for the focus script is
/// over: a result ends it with the payload, an error with "kwin script error: ...", a closed
/// channel with "channel closed"; an empty channel waits on until more than the timeout has
/// passed, then ends with "timeout waiting for kwin response".
pub fn reply_step(poll: ReplyPoll, elapsed_ms: u64) -> (s: ReplyStep)
    ensures
        match poll {
            ReplyPoll::Got(ScriptReply::Result(p)) => s matches ReplyStep::Done(Ok(q)) && q@ == p@,
            ReplyPoll::Got(ScriptReply::Error(e)) => s matches ReplyStep::Done(Err(m)) && m@
                == "kwin script error: "@ + e@,
            ReplyPoll::Empty => if elapsed_ms > REPLY_TIMEOUT_MS {
                s matches ReplyStep::Done(Err(m)) && m@ == "timeout waiting for kwin response"@
            } else {
                s is Wait
            },
            ReplyPoll::Disconnected => s matches ReplyStep::Done(Err(m)) && m@ == "channel closed"@,
        },
{
    match poll {
        ReplyPoll::Got(ScriptReply::Result(p)) => ReplyStep::Done(Ok(p)),
        ReplyPoll::Got(ScriptReply::Error(e)) => {
            let mut m = owned("kwin script error: ");
            m.append(e.as_str());
            ReplyStep::Done(Err(m))
        },
        ReplyPoll::Empty => {
            if elapsed_ms > REPLY_TIMEOUT_MS {
                ReplyStep::Done(Err(owned("timeout waiting for kwin response")))
            } else {
                ReplyStep::Wait
            }
        },
        ReplyPoll::Disconnected => ReplyStep::Done(Err(owned("channel closed"))),
    }
}

/// The last known state of the focused window.
#[derive(Debug, Clone)]
pub struct FocusTracker {
    pub app_id: Option<String>,
    pub fullscreen: bool,
    pub cursor_inside: bool,
}

impl Default for FocusTracker {
    fn default() -> (t: Self)
        ensures
            t.app_id is None,
            !t.fullscreen,
            !t.cursor_inside,
    {
        FocusTracker { app_id: None, fullscreen: false, cursor_inside: false }
    }
}

impl FocusTracker {
    /// The focused window's app id, whether it is fullscreen, whether the cursor is inside it.
    pub fn snapshot(&self) -> (r: (Option<String>, bool, bool))
        ensures
            r.0.deep_view() == self.app_id.deep_view(),
            r.1 == self.fullscreen,
            r.2 == self.cursor_inside,
    {
        let app = match &self.app_id {
            Some(a) => Some(a.clone()),
            None => None,
        };
        (app, self.fullscreen, self.cursor_inside)
    }

    /// Takes the outcome of one query: a successful one replaces the cache (an empty app id
    /// meaning no active window); a failed one keeps the last known values.
    pub fn refresh_with(&mut self, outcome: Option<(String, bool, bool)>)
        ensures
            match outcome {
                Some((app, fs, inside)) => {
                    &&& final(self).app_id.deep_view() == (if app@.len() == 0 {
                        None
                    } else {
                        Some(app@)
                    })
                    &&& final(self).fullscreen == fs
                    &&& final(self).cursor_inside == inside
                },
                None => final(self).app_id.deep_view() == old(self).app_id.deep_view()
                    && final(self).fullscreen == old(self).fullscreen && final(self).cursor_inside
                    == old(self).cursor_inside,
            },
    {
        match outcome {
            Some((app, fs, inside)) => {
                self.app_id = if app.as_str().is_empty() {
                    None
                } else {
                    Some(app)
                };
                self.fullscreen = fs;
                self.cursor_inside = inside;
            },
            None => {},
        }
    }
}

/// Keeps the focus poller alive; dropping it changes nothing.
pub struct FocusHandle;

impl FocusHandle {
    /// A handle with no poller behind it.
    pub fn inert() -> (h: Self) {
        FocusHandle
    }
}

} // verus!
