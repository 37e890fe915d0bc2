//! Messages shown to the user, and how an error of a server call becomes
//! one.
use vstd::prelude::*;
use vstd::string::*;
use vstd::utf8::*;

verus! {

/// How a message is coloured.
#[derive(Debug, Clone, Copy, PartialEq, Eq, Structural)]
pub enum Severity {
    Info,
    Warning,
    Error,
    Success,
}

/// How a message is shown: its severity and the options of the
/// notification that carries it.
#[derive(Debug, Clone, PartialEq, Eq)]
pub struct MessageConfig<N> {
    pub severity: Severity,
    pub config: N,
}

impl<N> MessageConfig<N> {
    pub fn new(severity: Severity, config: N) -> (r: Self)
        ensures
            r.severity == severity,
            r.config == config,
    {
        MessageConfig { severity, config }
    }

    /// The same options with severity `severity`.
    pub fn with_severity(self, severity: Severity) -> (r: Self)
        ensures
            r.severity == severity,
            r.config == self.config,
    {
        MessageConfig { severity, config: self.config }
    }
}

/// The kinds of failure of a call to the server.
#[derive(Debug, Clone, PartialEq, Eq)]
pub enum ServerFnError {
    Registration(String),
    Request(String),
    Response(String),
    ServerError(String),
    Deserialization(String),
    Serialization(String),
    Args(String),
    MissingArg(String),
    MiddlewareError(String),
}

/// The kinds that have a message.
pub open spec fn has_message(e: ServerFnError) -> bool {
    e is Request || e is Response || e is ServerError
}

/// The segments of `b` between the newline bytes, in order: one more than
/// there are newlines.
pub open spec fn lines_of(b: Seq<u8>) -> Seq<Seq<u8>>
    decreases b.len(),
{
    if b.len() == 0 {
        seq![Seq::empty()]
    } else if b.last() == 10 {
        lines_of(b.drop_last()).push(Seq::empty())
    } else {
        let init = lines_of(b.drop_last());
        init.update(init.len() - 1, init.last().push(b.last()))
    }
}

proof fn lemma_lines_nonempty(b: Seq<u8>)
    ensures
        lines_of(b).len() >= 1,
    decreases b.len(),
{
    if b.len() > 0 {
        lemma_lines_nonempty(b.drop_last());
    }
}

/// The lines of `b` when its first `i` bytes were read, the last one
/// still growing.
proof fn lemma_lines_step(b: Seq<u8>, i: int)
    requires
        0 <= i < b.len(),
    ensures
        lines_of(b.subrange(0, i + 1)) == (if b[i] == 10 {
            lines_of(b.subrange(0, i)).push(Seq::empty())
        } else {
            lines_of(b.subrange(0, i)).update(
                lines_of(b.subrange(0, i)).len() - 1,
                lines_of(b.subrange(0, i)).last().push(b[i]),
            )
        }),
{
    assert(b.subrange(0, i + 1).drop_last() =~= b.subrange(0, i));
}

/// Splits `s` at its newlines, as `str::split('\n')` does; the bytes of
/// each line are the segment between two newlines.
pub fn split_lines(s: &str) -> (r: Vec<String>)
    ensures
        r@.len() == lines_of(s.spec_bytes()).len(),
        forall|i: int| 0 <= i < r@.len() ==> encode_utf8((#[trigger] r@[i])@) == lines_of(s.spec_bytes())[i],
{
    broadcast use vstd::utf8::group_utf8_lib;

    let b = s.as_bytes();
    let ghost all = s.spec_bytes();
    let mut out: Vec<String> = Vec::new();
    let mut start: usize = 0;
    let mut i: usize = 0;
    proof {
        assert(b@.subrange(0, 0) =~= Seq::<u8>::empty());
    }
    while i < b.len()
        invariant
            b@ == all,
            all == s.spec_bytes(),
            valid_utf8(all),
            start <= i <= all.len(),
            is_char_boundary(all, start as int),
            out@.len() + 1 == lines_of(all.subrange(0, i as int)).len(),
            forall|j: int| 0 <= j < out@.len() ==> encode_utf8((#[trigger] out@[j])@) == lines_of(all.subrange(0, i as int))[j],
            lines_of(all.subrange(0, i as int)).last() == all.subrange(start as int, i as int),
        decreases all.len() - i,
    {
        proof {
            lemma_lines_step(all, i as int);
        }
        if b[i] == 10 {
            proof {
                assert(!is_continuation_byte(all[i as int]));
                is_char_boundary_iff_not_is_continuation_byte(all, i as int);
                lemma_boundary_in_suffix(all, start as int, (i - start) as int);
            }
            let (_, rest) = s.split_at(start);
            let (piece, _) = rest.split_at(i - start);
            proof {
                assert(piece.spec_bytes() =~= all.subrange(start as int, i as int));
            }
            out.push(piece.to_owned());
            proof {
                assert(is_char_boundary(all, i + 1)) by {
                    if i + 1 < all.len() {
                        lemma_after_ascii(all, i as int);
                    } else {
                        is_char_boundary_start_end_of_seq(all);
                    }
                }
            }
            start = i + 1;
        }
        i = i + 1;
        proof {
            assert(all.subrange(start as int, i as int) =~= (if start == i { Seq::<u8>::empty() } else { all.subrange(start as int, i - 1).push(all[i - 1]) }));
        }
    }
    proof {
        assert(all.subrange(0, i as int) =~= all);
    }
    let (_, last) = s.split_at(start);
    proof {
        assert(last.spec_bytes() =~= all.subrange(start as int, i as int));
    }
    out.push(last.to_owned());
    out
}

/// In valid UTF-8 the byte after an ASCII byte starts a character.
proof fn lemma_after_ascii(b: Seq<u8>, i: int)
    requires
        valid_utf8(b),
        0 <= i,
        i + 1 < b.len(),
        b[i] < 128,
    ensures
        is_char_boundary(b, i + 1),
{
    broadcast use vstd::utf8::group_utf8_lib;

    assert(!is_continuation_byte(b[i]));
    is_char_boundary_iff_not_is_continuation_byte(b, i);
    let tail = b.subrange(i, b.len() as int);
    assert(valid_utf8(tail));
    assert(decode_utf8(b) =~= decode_utf8(b.subrange(0, i)) + decode_utf8(tail));
    assert(is_char_boundary(tail, 1)) by {
        reveal_with_fuel(is_char_boundary, 2);
    }
    lemma_boundary_shift(b, i, 1);
}

proof fn lemma_boundary_shift(b: Seq<u8>, i: int, k: int)
    requires
        valid_utf8(b),
        is_char_boundary(b, i),
        0 <= i,
        0 <= k,
        i + k <= b.len(),
        is_char_boundary(b.subrange(i, b.len() as int), k),
    ensures
        is_char_boundary(b, i + k),
    decreases i,
{
    if i == 0 {
        assert(b.subrange(0, b.len() as int) =~= b);
    } else {
        let l = length_of_first_scalar(b);
        let p = pop_first_scalar(b);
        assert(valid_first_scalar(b) && valid_utf8(p));
        assert(is_char_boundary(p, i - l));
        assert(1 <= l <= 4);
        assert(p.subrange(i - l, p.len() as int) =~= b.subrange(i, b.len() as int));
        lemma_boundary_shift(p, i - l, k);
    }
}

proof fn lemma_boundary_in_suffix(b: Seq<u8>, i: int, k: int)
    requires
        valid_utf8(b),
        is_char_boundary(b, i),
        is_char_boundary(b, i + k),
        0 <= i,
        0 <= k,
        i + k <= b.len(),
    ensures
        is_char_boundary(b.subrange(i, b.len() as int), k),
    decreases i,
{
    if i == 0 {
        assert(b.subrange(0, b.len() as int) =~= b);
    } else {
        let l = length_of_first_scalar(b);
        let p = pop_first_scalar(b);
        assert(valid_first_scalar(b) && valid_utf8(p));
        assert(is_char_boundary(p, i - l));
        assert(1 <= l <= 4);
        assert(is_char_boundary(p, i - l + k));
        assert(p.subrange(i - l, p.len() as int) =~= b.subrange(i, b.len() as int));
        lemma_boundary_in_suffix(p, i - l, k);
    }
}

/// Shows messages; without a way to show them nothing is shown.
#[derive(Debug, Clone, Copy, PartialEq, Eq, Structural)]
pub struct MessageFn {
    pub available: bool,
}

impl MessageFn {
    /// The lines of the error message for a failed server call, shown
    /// with severity `Error`; `None` when no messages can be shown. Only
    /// failures to connect, to answer and errors of the server itself
    /// have a message.
    pub fn server_err(&self, error: &ServerFnError) -> (r: Option<(Vec<String>, Severity)>)
        requires
            self.available ==> has_message(*error),
        ensures
            !self.available ==> r is None,
            self.available ==> (r matches Some((lines, sev)) && sev == Severity::Error && match *error {
                ServerFnError::Request(_) => lines@.len() == 1 && lines@[0]@ == "Failed to connect to the server"@,
                ServerFnError::Response(_) => lines@.len() == 1 && lines@[0]@ == "The server failed to respond"@,
                ServerFnError::ServerError(e) => lines@.len() == lines_of(encode_utf8(e@)).len()
                    && forall|i: int| 0 <= i < lines@.len() ==> encode_utf8((#[trigger] lines@[i])@) == lines_of(encode_utf8(e@))[i],
                _ => false,
            }),
    {
        if !self.available {
            return None;
        }
        let lines = match error {
            ServerFnError::Request(_) => vec!["Failed to connect to the server".to_owned()],
            ServerFnError::Response(_) => vec!["The server failed to respond".to_owned()],
            ServerFnError::ServerError(e) => split_lines(e.as_str()),
            _ => Vec::new(),
        };
        Some((lines, Severity::Error))
    }
}

/// What a notification is, and whether it shows as a modal dialog.
#[derive(Debug, Clone, Copy, PartialEq, Eq, Structural)]
pub enum NoticeKind {
    Message(bool),
    Error(bool),
    Success(bool),
}

/// How a notification looks: whether its dialog is modal, whether it fades
/// out, and the class of its tone.
#[derive(Debug, Clone, Copy, PartialEq, Eq)]
pub struct MessageLook {
    pub is_modal: bool,
    pub fade: bool,
    pub tone: &'static str,
}

/// Whether a notification of `kind` is shown as a modal dialog.
pub open spec fn notice_modal(kind: NoticeKind) -> bool {
    match kind {
        NoticeKind::Message(m) => m,
        NoticeKind::Error(m) => m,
        NoticeKind::Success(m) => m,
    }
}

/// The tone class of a notification of `kind`.
pub open spec fn notice_tone(kind: NoticeKind) -> Seq<char> {
    match kind {
        NoticeKind::Message(_) => "info"@,
        NoticeKind::Error(_) => "error"@,
        NoticeKind::Success(_) => "success"@,
    }
}

/// The look of a notification of `kind` that fades out or not: modal as
/// its kind says, informing, failing or succeeding in tone.
pub fn message_look(kind: NoticeKind, do_fade: bool) -> (r: MessageLook)
    ensures
        r.is_modal == notice_modal(kind),
        r.fade == do_fade,
        r.tone@ == notice_tone(kind),
{
    match kind {
        NoticeKind::Message(m) => MessageLook { is_modal: m, fade: do_fade, tone: "info" },
        NoticeKind::Error(m) => MessageLook { is_modal: m, fade: do_fade, tone: "error" },
        NoticeKind::Success(m) => MessageLook { is_modal: m, fade: do_fade, tone: "success" },
    }
}

} // verus!
