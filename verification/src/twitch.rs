//! The protocol client: frame classification, the chat-line parser, channel
//! membership, and the connection state machine that answers keepalives,
//! executes join/part commands, and serves info queries.
//!
//! Wire shape: outbound `PASS <token>`, `NICK <login>`, `JOIN #<channel>`,
//! `PART #<channel>`, `PONG <arg>`; inbound keepalive `PING <arg>`; inbound
//! chat line `:<nick>!<user>@<host> PRIVMSG #<channel> :<text>`.

use crate::protocol::{ActionRes, FailureLevel, PartAction, TwitchAction};
use crate::strutil::{
    find_char, find_of, split_char, split_crlf, split_crlf_str, split_on, split_term_char,
    split_term_on, str_eq, views_of,
};
use vstd::prelude::*;
use vstd::string::StrSliceExecFns;
use vstd::string::StringExecFns;

verus! {

/// An info query against the connection.
#[derive(Debug)]
pub enum TwitchInfoCmd {
    Channels,
}

/// A command addressed to the running connection: a connection action or an
/// info query.
#[derive(Debug)]
pub enum TwitchCmdType {
    Connection(TwitchAction),
    Info(TwitchInfoCmd),
}

/// An event the connection reports upward.
#[derive(Debug)]
pub enum TwitchConnectionEvent {
    Message(String),
}

/// One classified inbound protocol line: a keepalive carrying its ready
/// reply, or a chat line kept verbatim.
#[derive(Debug)]
pub enum IrcMessage {
    Ping(String),
    Privmsg(String),
}

/// What the client does with one inbound line: send a frame back on the
/// connection, or hand a chat line to the dispatcher.
#[derive(Debug)]
pub enum IrcEffect {
    SendFrame(String),
    EmitMessage(String),
}

/// An inbound frame matched no recognized shape; the connection is torn down.
#[derive(Debug)]
pub struct ProtocolViolation;

/// One parsed chat message.
#[derive(Debug)]
pub struct UserMessage {
    pub channel: String,
    pub author: String,
    pub message: String,
}

/// The lines of a frame that carry anything.
pub open spec fn nonblank(ls: Seq<Seq<char>>) -> Seq<Seq<char>>
    decreases ls.len(),
{
    if ls.len() == 0 {
        Seq::<Seq<char>>::empty()
    } else if ls[0].len() == 0 {
        nonblank(ls.drop_first())
    } else {
        seq![ls[0]] + nonblank(ls.drop_first())
    }
}

proof fn lemma_nonblank_concat(a: Seq<Seq<char>>, b: Seq<Seq<char>>)
    ensures
        nonblank(a + b) == nonblank(a) + nonblank(b),
    decreases a.len(),
{
    if a.len() == 0 {
        assert(a + b =~= b);
        assert(nonblank(a) + nonblank(b) =~= nonblank(b));
    } else {
        assert((a + b).drop_first() =~= a.drop_first() + b);
        lemma_nonblank_concat(a.drop_first(), b);
        if a[0].len() == 0 {
            assert(nonblank(a + b) == nonblank(a.drop_first() + b));
        } else {
            assert(seq![a[0]] + (nonblank(a.drop_first()) + nonblank(b)) =~= (seq![a[0]]
                + nonblank(a.drop_first())) + nonblank(b));
        }
    }
}

proof fn lemma_nonblank_single(l: Seq<char>)
    ensures
        nonblank(seq![l]) == if l.len() == 0 {
            Seq::<Seq<char>>::empty()
        } else {
            seq![l]
        },
{
    assert(seq![l].drop_first() =~= Seq::<Seq<char>>::empty());
    assert(nonblank(seq![l].drop_first()) =~= Seq::<Seq<char>>::empty());
    if l.len() != 0 {
        assert(nonblank(seq![l]) =~= seq![l] + Seq::<Seq<char>>::empty());
        assert(seq![l] + Seq::<Seq<char>>::empty() =~= seq![l]);
    }
}

/// A chat line: it starts with the prefix sigil.
pub open spec fn line_is_chat(line: Seq<char>) -> bool {
    line.len() > 0 && line[0] == ':'
}

/// A keepalive line: no prefix sigil, the keepalive token, and an argument.
pub open spec fn line_is_ping(line: Seq<char>) -> bool {
    &&& !line_is_chat(line)
    &&& split_on(line, ' ').len() >= 2
    &&& split_on(line, ' ')[0] == "PING"@
}

/// A line the client recognizes; anything else is a protocol violation.
pub open spec fn line_wellformed(line: Seq<char>) -> bool {
    line_is_chat(line) || line_is_ping(line)
}

/// The classification a wellformed line gets: a keepalive becomes its reply,
/// a chat line is kept verbatim.
pub open spec fn frame_matches(f: IrcMessage, line: Seq<char>) -> bool {
    if line_is_chat(line) {
        f matches IrcMessage::Privmsg(s) && s@ == line
    } else {
        f matches IrcMessage::Ping(s) && s@ == "PONG "@ + split_on(line, ' ')[1]
    }
}

/// Splits one transport frame into lines and classifies each: a keepalive
/// line yields its ready reply, a chat line is kept whole, an empty line is
/// dropped, and any other line is a protocol violation.
pub fn split_msg(m: &str) -> (r: Result<Vec<IrcMessage>, ProtocolViolation>)
    ensures
        ({
            let lines = nonblank(split_crlf(m@));
            match r {
                Ok(v) => {
                    &&& forall|i: int| 0 <= i < lines.len() ==> line_wellformed(#[trigger] lines[i])
                    &&& v@.len() == lines.len()
                    &&& forall|i: int|
                        0 <= i < lines.len() ==> frame_matches(#[trigger] v@[i], lines[i])
                },
                Err(_) => exists|i: int|
                    0 <= i < lines.len() && !line_wellformed(#[trigger] lines[i]),
            }
        }),
{
    let raw_lines = split_crlf_str(m);
    let ghost lv = split_crlf(m@);
    let n = raw_lines.len();
    let mut out: Vec<IrcMessage> = Vec::new();
    let mut i: usize = 0;
    proof {
        assert(lv.subrange(0, 0) =~= Seq::<Seq<char>>::empty());
        assert(nonblank(lv.subrange(0, 0)) =~= Seq::<Seq<char>>::empty());
    }
    while i < n
        invariant
            n == raw_lines@.len(),
            i <= n,
            lv == split_crlf(m@),
            views_of(raw_lines@) == lv,
            out@.len() == nonblank(lv.subrange(0, i as int)).len(),
            forall|j: int|
                0 <= j < out@.len() ==> line_wellformed(
                    #[trigger] nonblank(lv.subrange(0, i as int))[j],
                ),
            forall|j: int|
                0 <= j < out@.len() ==> frame_matches(
                    #[trigger] out@[j],
                    nonblank(lv.subrange(0, i as int))[j],
                ),
        decreases n - i,
    {
        let ghost pre = lv.subrange(0, i as int);
        let ghost one = seq![lv[i as int]];
        proof {
            assert(lv.subrange(0, i + 1) =~= pre + one);
            lemma_nonblank_concat(pre, one);
            lemma_nonblank_single(lv[i as int]);
            assert(raw_lines@[i as int]@ == lv[i as int]);
        }
        let line = &raw_lines[i];
        if !line.as_str().is_empty() {
            let c = line.as_str().get_char(0);
            if c == ':' {
                out.push(IrcMessage::Privmsg(line.clone()));
                proof {
                    assert(nonblank(lv.subrange(0, i + 1)) =~= nonblank(pre).push(lv[i as int]));
                }
            } else {
                let parts = split_char(line.as_str(), ' ');
                let has_arg = parts.len() >= 2;
                if has_arg && str_eq(parts[0].as_str(), "PING") {
                    let mut pong = String::from_str("PONG ");
                    pong.append(parts[1].as_str());
                    proof {
                        assert(parts@[0]@ == split_on(lv[i as int], ' ')[0]);
                        assert(parts@[1]@ == split_on(lv[i as int], ' ')[1]);
                        assert(line_is_ping(lv[i as int]));
                    }
                    out.push(IrcMessage::Ping(pong));
                    proof {
                        assert(nonblank(lv.subrange(0, i + 1)) =~= nonblank(pre).push(
                            lv[i as int],
                        ));
                    }
                } else {
                    proof {
                        if parts@.len() >= 2 {
                            assert(parts@[0]@ == split_on(lv[i as int], ' ')[0]);
                        }
                        assert(!line_wellformed(lv[i as int]));
                        let rest = lv.subrange(i as int, lv.len() as int);
                        assert(lv =~= pre + rest);
                        lemma_nonblank_concat(pre, rest);
                        assert(rest.drop_first() =~= lv.subrange(i + 1, lv.len() as int));
                        assert(nonblank(rest)[0] == lv[i as int]);
                        assert(nonblank(lv) == nonblank(pre) + nonblank(rest));
                        assert((nonblank(pre) + nonblank(rest))[nonblank(pre).len() as int]
                            == nonblank(rest)[0]);
                        assert(!line_wellformed(
                            nonblank(lv)[nonblank(pre).len() as int],
                        ));
                    }
                    return Err(ProtocolViolation);
                }
            }
        } else {
            proof {
                assert(nonblank(lv.subrange(0, i + 1)) =~= nonblank(pre));
            }
        }
        i = i + 1;
    }
    proof {
        assert(lv.subrange(0, n as int) =~= lv);
    }
    Ok(out)
}

/// What one inbound protocol line parses to, when it has the chat-line
/// envelope: the channel with its sigil stripped, the author up to the
/// user separator, and the text after the second delimiter, verbatim.
pub open spec fn privmsg_fields_of(s: Seq<char>) -> Option<(Seq<char>, Seq<char>, Seq<char>)> {
    let i = find_of(s, ':');
    if i == -1 {
        None
    } else {
        let rest1 = s.subrange(i + 1, s.len() as int);
        let j = find_of(rest1, ':');
        if j == -1 {
            None
        } else {
            let prefix = rest1.subrange(0, j);
            let message = rest1.subrange(j + 1, rest1.len() as int);
            let toks = split_term_on(prefix, ' ');
            if toks.len() < 3 {
                None
            } else {
                let author_tok = toks[0];
                let k = find_of(author_tok, '!');
                let author = if k == -1 {
                    author_tok
                } else {
                    author_tok.subrange(0, k)
                };
                let chtok = toks[2];
                if chtok.len() == 0 {
                    None
                } else {
                    Some((chtok.drop_first(), author, message))
                }
            }
        }
    }
}

/// Parses one chat line into `{channel, author, message}`; a line without
/// that envelope yields no event rather than an error.
pub fn parse_privmsg(s: &str) -> (r: Option<UserMessage>)
    ensures
        match (r, privmsg_fields_of(s@)) {
            (Some(m), Some(f)) => m.channel@ == f.0 && m.author@ == f.1 && m.message@ == f.2,
            (None, None) => true,
            _ => false,
        },
{
    let n = s.unicode_len();
    let i = match find_char(s, ':') {
        Some(i) => i,
        None => {
            return None;
        },
    };
    proof {
        crate::strutil::lemma_find_of(s@, ':');
    }
    let rest1 = s.substring_char(i + 1, n);
    let rn = rest1.unicode_len();
    let j = match find_char(rest1, ':') {
        Some(j) => j,
        None => {
            return None;
        },
    };
    proof {
        crate::strutil::lemma_find_of(rest1@, ':');
    }
    let prefix = rest1.substring_char(0, j);
    let message = rest1.substring_char(j + 1, rn);
    let toks = split_term_char(prefix, ' ');
    if toks.len() < 3 {
        return None;
    }
    proof {
        assert(toks@[0]@ == split_term_on(prefix@, ' ')[0]);
        assert(toks@[2]@ == split_term_on(prefix@, ' ')[2]);
    }
    let author_tok = &toks[0];
    let author = match find_char(author_tok.as_str(), '!') {
        Some(k) => {
            proof {
                crate::strutil::lemma_find_of(author_tok@, '!');
            }
            author_tok.as_str().substring_char(0, k).to_owned()
        },
        None => author_tok.clone(),
    };
    let chtok = &toks[2];
    let chn = chtok.as_str().unicode_len();
    if chn == 0 {
        return None;
    }
    let channel = chtok.as_str().substring_char(1, chn).to_owned();
    proof {
        assert(chtok@.subrange(1, chtok@.len() as int) =~= chtok@.drop_first());
    }
    Some(UserMessage { channel, author, message: message.to_owned() })
}

/// The connection label under which membership is reported.
pub open spec fn connection_label() -> Seq<char> {
    "twitch"@
}

/// The outbound frame that joins a channel.
pub open spec fn join_frame_of(c: Seq<char>) -> Seq<char> {
    "JOIN #"@ + c
}

/// The outbound frame that parts a channel.
pub open spec fn part_frame_of(c: Seq<char>) -> Seq<char> {
    "PART #"@ + c
}

/// The first authentication frame, sent without waiting for a challenge.
pub open spec fn pass_frame_of(token: Seq<char>) -> Seq<char> {
    "PASS oauth:"@ + token
}

/// The second authentication frame.
pub open spec fn nick_frame_of(login: Seq<char>) -> Seq<char> {
    "NICK "@ + login
}

/// What the membership info query replies: a function of the label and the
/// channel list alone.
pub uninterp spec fn channels_json_of(label: Seq<char>, channels: Seq<Seq<char>>) -> Seq<char>;

/// Relies on `serde_json::to_string_pretty`: on a one-key string map it is a
/// deterministic function of the key and the values, and it cannot fail
/// (only non-string map keys or a failing serializer can make it fail).
#[verifier::external_body]
fn channels_to_json(label: &str, channels: &Vec<String>) -> (r: String)
    ensures
        r@ == channels_json_of(label@, views_of(channels@)),
{
    let mut map = std::collections::BTreeMap::new();
    map.insert(label, channels);
    serde_json::to_string_pretty(&map).unwrap()
}

/// The connection lifecycle of the protocol client.
#[derive(Debug, Clone, Copy, PartialEq, Eq, Structural)]
pub enum ClientState {
    Disconnected,
    Connecting,
    Authenticating,
    Ready,
    Closing,
    Closed,
}

/// The protocol client: the connection lifecycle state and the channels the
/// client currently believes it has joined.
///
/// Every method returns the frames to put on the wire instead of writing
/// them itself; the caller owns the outbound half of the connection and
/// sends them in order.
#[derive(Debug)]
pub struct TwitchClient {
    state: ClientState,
    channels: Vec<String>,
}

impl TwitchClient {
    pub closed spec fn spec_state(self) -> ClientState {
        self.state
    }

    /// The joined channels, in the order the client keeps them.
    pub closed spec fn spec_channels(self) -> Seq<Seq<char>> {
        views_of(self.channels@)
    }

    /// Whether the client believes it has joined `c`.
    pub closed spec fn has_channel(self, c: Seq<char>) -> bool {
        self.spec_channels().contains(c)
    }

    /// A channel appears at most once.
    pub closed spec fn wf(self) -> bool {
        forall|i: int, j: int|
            0 <= i < j < self.spec_channels().len() ==> self.spec_channels()[i]
                != self.spec_channels()[j]
    }

    /// A fresh client: disconnected, no channels.
    pub fn new() -> (c: Self)
        ensures
            c.wf(),
            c.spec_state() == ClientState::Disconnected,
            c.spec_channels() == Seq::<Seq<char>>::empty(),
    {
        let c = TwitchClient { state: ClientState::Disconnected, channels: Vec::new() };
        proof {
            assert(c.spec_channels() =~= Seq::<Seq<char>>::empty());
        }
        c
    }

    /// The transport is being opened.
    pub fn begin_connect(&mut self)
        requires
            old(self).spec_state() == ClientState::Disconnected,
        ensures
            final(self).spec_state() == ClientState::Connecting,
            final(self).spec_channels() == old(self).spec_channels(),
            final(self).wf() == old(self).wf(),
    {
        self.state = ClientState::Connecting;
    }

    /// The transport is up: the client sends the authentication pair at
    /// once, without waiting for a server challenge.
    pub fn transport_connected(&mut self, token: &str, login: &str) -> (frames: Vec<String>)
        requires
            old(self).spec_state() == ClientState::Connecting,
        ensures
            final(self).spec_state() == ClientState::Authenticating,
            final(self).spec_channels() == old(self).spec_channels(),
            final(self).wf() == old(self).wf(),
            views_of(frames@) == seq![pass_frame_of(token@), nick_frame_of(login@)],
    {
        self.state = ClientState::Authenticating;
        let mut pass = String::from_str("PASS oauth:");
        pass.append(token);
        let mut nick = String::from_str("NICK ");
        nick.append(login);
        let mut frames: Vec<String> = Vec::new();
        frames.push(pass);
        frames.push(nick);
        proof {
            assert(views_of(frames@) =~= seq![pass_frame_of(token@), nick_frame_of(login@)]);
        }
        frames
    }

    /// One inbound transport frame. The first frame acknowledges
    /// authentication; every keepalive line yields its reply before any
    /// later line is looked at, every chat line is handed on in order, and
    /// an unrecognized line is a fatal protocol violation.
    pub fn on_frame(&mut self, raw: &str) -> (r: Result<Vec<IrcEffect>, ProtocolViolation>)
        requires
            old(self).spec_state() == ClientState::Authenticating || old(self).spec_state()
                == ClientState::Ready,
        ensures
            final(self).spec_state() == ClientState::Ready,
            final(self).spec_channels() == old(self).spec_channels(),
            final(self).wf() == old(self).wf(),
            ({
                let lines = nonblank(split_crlf(raw@));
                match r {
                    Ok(effects) => {
                        &&& forall|i: int|
                            0 <= i < lines.len() ==> line_wellformed(#[trigger] lines[i])
                        &&& effects@.len() == lines.len()
                        &&& forall|i: int|
                            0 <= i < lines.len() ==> effect_matches(
                                #[trigger] effects@[i],
                                lines[i],
                            )
                    },
                    Err(_) => exists|i: int|
                        0 <= i < lines.len() && !line_wellformed(#[trigger] lines[i]),
                }
            }),
    {
        self.state = ClientState::Ready;
        let frames = match split_msg(raw) {
            Ok(frames) => frames,
            Err(v) => {
                return Err(v);
            },
        };
        let ghost lines = nonblank(split_crlf(raw@));
        let n = frames.len();
        let mut effects: Vec<IrcEffect> = Vec::new();
        let mut i: usize = 0;
        while i < n
            invariant
                n == frames@.len(),
                i <= n,
                n == lines.len(),
                effects@.len() == i,
                forall|j: int| 0 <= j < n ==> frame_matches(#[trigger] frames@[j], lines[j]),
                forall|j: int| 0 <= j < i ==> effect_matches(#[trigger] effects@[j], lines[j]),
            decreases n - i,
        {
            let m = match &frames[i] {
                IrcMessage::Ping(pong) => IrcEffect::SendFrame(pong.clone()),
                IrcMessage::Privmsg(text) => IrcEffect::EmitMessage(text.clone()),
            };
            effects.push(m);
            i = i + 1;
        }
        Ok(effects)
    }
}

/// The names actually parted when `req` is parted from membership `mem`,
/// in request order: a requested name is reported when it is a member and
/// no earlier request already took it.
pub open spec fn parted_of(mem: Seq<Seq<char>>, req: Seq<Seq<char>>) -> Seq<Seq<char>>
    decreases req.len(),
{
    if req.len() == 0 {
        Seq::<Seq<char>>::empty()
    } else {
        let butlast = parted_of(mem, req.drop_last());
        if mem.contains(req.last()) && !req.drop_last().contains(req.last()) {
            butlast.push(req.last())
        } else {
            butlast
        }
    }
}

impl TwitchClient {
    /// The current lifecycle state.
    pub fn state(&self) -> (s: ClientState)
        ensures
            s == self.spec_state(),
    {
        self.state
    }

    /// The joined channels, readable for info queries.
    pub fn channels(&self) -> (chs: &Vec<String>)
        ensures
            views_of(chs@) == self.spec_channels(),
    {
        &self.channels
    }

    /// Whether the client believes it has joined this channel.
    pub fn contains_channel(&self, c: &str) -> (r: bool)
        ensures
            r == self.has_channel(c@),
    {
        let k = self.channels.len();
        let mut i: usize = 0;
        while i < k
            invariant
                k == self.channels@.len(),
                i <= k,
                forall|j: int| 0 <= j < i ==> self.spec_channels()[j] != c@,
            decreases k - i,
        {
            proof {
                assert(self.spec_channels()[i as int] == self.channels@[i as int]@);
            }
            if str_eq(self.channels[i].as_str(), c) {
                proof {
                    assert(self.spec_channels().contains(c@));
                }
                return true;
            }
            i = i + 1;
        }
        proof {
            if self.spec_channels().contains(c@) {
                let w = choose|w: int|
                    0 <= w < self.spec_channels().len() && self.spec_channels()[w] == c@;
                assert(false);
            }
        }
        false
    }

    /// Removes one channel from membership by value; reports whether it was
    /// a member.
    fn remove_channel(&mut self, channel: &str) -> (r: bool)
        requires
            old(self).wf(),
        ensures
            final(self).wf(),
            final(self).spec_state() == old(self).spec_state(),
            r == old(self).has_channel(channel@),
            forall|c: Seq<char>|
                #![trigger final(self).has_channel(c)]
                #![trigger old(self).has_channel(c)]
                final(self).has_channel(c) <==> (old(self).has_channel(c) && c != channel@),
    {
        let ghost orig = *self;
        let k = self.channels.len();
        let mut p: usize = 0;
        while p < k
            invariant
                *self == orig,
                orig == *old(self),
                k == self.channels@.len(),
                p <= k,
                orig.wf(),
                forall|j: int| 0 <= j < p ==> orig.spec_channels()[j] != channel@,
            decreases k - p,
        {
            proof {
                assert(self.spec_channels()[p as int] == self.channels@[p as int]@);
            }
            if str_eq(self.channels[p].as_str(), channel) {
                let ghost ws = self.spec_channels();
                self.channels.swap_remove(p);
                proof {
                    let ws2 = ws.update(p as int, ws.last()).drop_last();
                    assert(self.spec_channels() =~= ws2);
                    assert(ws.contains(channel@)) by {
                        assert(ws[p as int] == channel@);
                    }
                    assert forall|i: int, j: int|
                        0 <= i < j < ws2.len() implies ws2[i] != ws2[j] by {
                        assert(ws2[i] == if i == p as int {
                            ws.last()
                        } else {
                            ws[i]
                        });
                        assert(ws2[j] == if j == p as int {
                            ws.last()
                        } else {
                            ws[j]
                        });
                    }
                    assert forall|c: Seq<char>|
                        ws2.contains(c) <==> (ws.contains(c) && c != channel@) by {
                        if ws2.contains(c) {
                            let q = choose|q: int| 0 <= q < ws2.len() && ws2[q] == c;
                            if q == p as int {
                                assert(c == ws[ws.len() - 1]);
                                assert(ws.contains(c));
                            } else {
                                assert(c == ws[q]);
                                assert(ws.contains(c));
                            }
                            assert(c != channel@) by {
                                if q == p as int {
                                    assert(ws[ws.len() - 1] != ws[p as int]);
                                } else {
                                    assert(ws[q] != ws[p as int]);
                                }
                            }
                        }
                        if ws.contains(c) && c != channel@ {
                            let q = choose|q: int| 0 <= q < ws.len() && ws[q] == c;
                            assert(q != p as int);
                            if q == ws.len() - 1 {
                                assert(p as int != ws.len() - 1);
                                assert(ws2[p as int] == c);
                                assert(ws2.contains(c));
                            } else {
                                assert(ws2[q] == c);
                                assert(ws2.contains(c));
                            }
                        }
                    }
                }
                return true;
            }
            p = p + 1;
        }
        proof {
            if orig.spec_channels().contains(channel@) {
                let w = choose|w: int|
                    0 <= w < orig.spec_channels().len() && orig.spec_channels()[w] == channel@;
                assert(false);
            }
        }
        false
    }

    /// Sends one join frame and inserts the channel; inserting an already
    /// joined channel changes nothing.
    pub fn join(&mut self, channel: String) -> (frame: String)
        requires
            old(self).wf(),
            old(self).spec_state() == ClientState::Ready,
        ensures
            final(self).wf(),
            final(self).spec_state() == ClientState::Ready,
            frame@ == join_frame_of(channel@),
            forall|c: Seq<char>|
                #![trigger final(self).has_channel(c)]
                #![trigger old(self).has_channel(c)]
                final(self).has_channel(c) <==> (old(self).has_channel(c) || c == channel@),
    {
        let mut frame = String::from_str("JOIN #");
        frame.append(channel.as_str());
        if !self.contains_channel(channel.as_str()) {
            let ghost ws = self.spec_channels();
            let ghost ch = channel@;
            proof {
                crate::strutil::lemma_views_push(self.channels@, channel);
            }
            self.channels.push(channel);
            proof {
                assert(self.spec_channels() == ws.push(ch));
                assert forall|c: Seq<char>|
                    self.has_channel(c) <==> (ws.contains(c) || c == ch) by {
                    crate::strutil::lemma_contains_push(ws, ch, c);
                }
                assert forall|i: int, j: int|
                    0 <= i < j < ws.push(ch).len() implies ws.push(ch)[i] != ws.push(ch)[j] by {
                    if j == ws.len() as int {
                        if ws[i] == ch {
                            assert(ws.contains(ch));
                        }
                    }
                }
            }
        }
        frame
    }

    /// Sends one join frame per channel, inserting each.
    pub fn join_many(&mut self, channels: &Vec<String>) -> (frames: Vec<String>)
        requires
            old(self).wf(),
            old(self).spec_state() == ClientState::Ready,
        ensures
            final(self).wf(),
            final(self).spec_state() == ClientState::Ready,
            views_of(frames@) == views_of(channels@).map_values(|c: Seq<char>| join_frame_of(c)),
            forall|c: Seq<char>|
                #![trigger final(self).has_channel(c)]
                #![trigger old(self).has_channel(c)]
                final(self).has_channel(c) <==> (old(self).has_channel(c) || views_of(
                    channels@,
                ).contains(c)),
    {
        let ghost orig = *old(self);
        let n = channels.len();
        let mut frames: Vec<String> = Vec::new();
        let mut k: usize = 0;
        proof {
            assert(views_of(frames@) =~= views_of(channels@).subrange(0, 0).map_values(
                |c: Seq<char>| join_frame_of(c),
            ));
        }
        while k < n
            invariant
                n == channels@.len(),
                k <= n,
                self.wf(),
                self.spec_state() == ClientState::Ready,
                orig == *old(self),
                views_of(frames@) == views_of(channels@).subrange(0, k as int).map_values(
                    |c: Seq<char>| join_frame_of(c),
                ),
                forall|c: Seq<char>|
                    #![trigger self.has_channel(c)]
                    #![trigger orig.has_channel(c)]
                    self.has_channel(c) <==> (orig.has_channel(c) || views_of(channels@).subrange(
                        0,
                        k as int,
                    ).contains(c)),
            decreases n - k,
        {
            let ghost pre = views_of(channels@).subrange(0, k as int);
            let ghost ch = channels@[k as int]@;
            let ghost before = *self;
            let frame = self.join(channels[k].clone());
            proof {
                crate::strutil::lemma_views_push(frames@, frame);
            }
            frames.push(frame);
            proof {
                assert(views_of(channels@).subrange(0, k + 1) =~= pre.push(ch));
                assert(forall|c: Seq<char>|
                    self.has_channel(c) <==> (before.has_channel(c) || c == ch));
                assert forall|c: Seq<char>|
                    self.has_channel(c) <==> (orig.has_channel(c) || views_of(channels@).subrange(
                        0,
                        k + 1,
                    ).contains(c)) by {
                    crate::strutil::lemma_contains_push(pre, ch, c);
                }
                assert(views_of(frames@) =~= views_of(channels@).subrange(0, k + 1).map_values(
                    |c: Seq<char>| join_frame_of(c),
                ));
            }
            k = k + 1;
        }
        proof {
            assert(views_of(channels@).subrange(0, n as int) =~= views_of(channels@));
        }
        frames
    }

    /// Parts one channel: when it is a member it is removed and its part
    /// frame returned; a channel never joined is a no-op.
    pub fn part(&mut self, channel: &str) -> (r: Option<String>)
        requires
            old(self).wf(),
            old(self).spec_state() == ClientState::Ready,
        ensures
            final(self).wf(),
            final(self).spec_state() == ClientState::Ready,
            r is Some <==> old(self).has_channel(channel@),
            match r {
                Some(f) => f@ == part_frame_of(channel@),
                None => true,
            },
            forall|c: Seq<char>|
                #![trigger final(self).has_channel(c)]
                #![trigger old(self).has_channel(c)]
                final(self).has_channel(c) <==> (old(self).has_channel(c) && c != channel@),
    {
        if self.remove_channel(channel) {
            let mut frame = String::from_str("PART #");
            frame.append(channel);
            Some(frame)
        } else {
            None
        }
    }

    /// Sends one part frame per requested channel and removes the matching
    /// members, reporting which names were actually present. Requesting a
    /// channel never joined is a no-op for that name, not a failure.
    pub fn part_many(&mut self, channels: &Vec<String>) -> (r: (Vec<String>, Vec<String>))
        requires
            old(self).wf(),
            old(self).spec_state() == ClientState::Ready,
        ensures
            final(self).wf(),
            final(self).spec_state() == ClientState::Ready,
            views_of(r.0@) == views_of(channels@).map_values(|c: Seq<char>| part_frame_of(c)),
            views_of(r.1@) == parted_of(old(self).spec_channels(), views_of(channels@)),
            forall|c: Seq<char>|
                #![trigger final(self).has_channel(c)]
                #![trigger old(self).has_channel(c)]
                final(self).has_channel(c) <==> (old(self).has_channel(c) && !views_of(
                    channels@,
                ).contains(c)),
    {
        let ghost orig = *old(self);
        let n = channels.len();
        let mut frames: Vec<String> = Vec::new();
        let mut parted: Vec<String> = Vec::new();
        let mut k: usize = 0;
        proof {
            assert(views_of(frames@) =~= views_of(channels@).subrange(0, 0).map_values(
                |c: Seq<char>| part_frame_of(c),
            ));
            assert(views_of(channels@).subrange(0, 0) =~= Seq::<Seq<char>>::empty());
            assert(views_of(parted@) =~= parted_of(
                orig.spec_channels(),
                views_of(channels@).subrange(0, 0),
            ));
        }
        while k < n
            invariant
                n == channels@.len(),
                k <= n,
                self.wf(),
                self.spec_state() == ClientState::Ready,
                orig == *old(self),
                views_of(frames@) == views_of(channels@).subrange(0, k as int).map_values(
                    |c: Seq<char>| part_frame_of(c),
                ),
                views_of(parted@) == parted_of(
                    orig.spec_channels(),
                    views_of(channels@).subrange(0, k as int),
                ),
                forall|c: Seq<char>|
                    #![trigger self.has_channel(c)]
                    #![trigger orig.has_channel(c)]
                    self.has_channel(c) <==> (orig.has_channel(c) && !views_of(channels@).subrange(
                        0,
                        k as int,
                    ).contains(c)),
            decreases n - k,
        {
            let ghost pre = views_of(channels@).subrange(0, k as int);
            let ghost ch = channels@[k as int]@;
            let ghost before = *self;
            proof {
                assert(self.has_channel(ch) == (orig.has_channel(ch) && !pre.contains(ch)));
            }
            let mut frame = String::from_str("PART #");
            frame.append(channels[k].as_str());
            let was_member = self.remove_channel(channels[k].as_str());
            let ghost old_parted = parted@;
            if was_member {
                proof {
                    crate::strutil::lemma_views_push(parted@, channels@[k as int]);
                }
                parted.push(channels[k].clone());
            }
            proof {
                crate::strutil::lemma_views_push(frames@, frame);
            }
            frames.push(frame);
            proof {
                assert(views_of(channels@).subrange(0, k + 1) =~= pre.push(ch));
                assert(pre.push(ch).drop_last() =~= pre);
                assert(was_member == before.has_channel(ch));
                assert(before.has_channel(ch) == (orig.has_channel(ch) && !pre.contains(ch)));
                if was_member {
                    assert(views_of(parted@) =~= parted_of(orig.spec_channels(), pre).push(ch));
                }
                assert(views_of(parted@) =~= parted_of(orig.spec_channels(), pre.push(ch)));
                assert forall|c: Seq<char>|
                    self.has_channel(c) <==> (orig.has_channel(c) && !views_of(
                        channels@,
                    ).subrange(0, k + 1).contains(c)) by {
                    crate::strutil::lemma_contains_push(pre, ch, c);
                }
                assert(views_of(frames@) =~= views_of(channels@).subrange(0, k + 1).map_values(
                    |c: Seq<char>| part_frame_of(c),
                ));
            }
            k = k + 1;
        }
        proof {
            assert(views_of(channels@).subrange(0, n as int) =~= views_of(channels@));
        }
        (frames, parted)
    }

    /// One external command against a ready connection: exactly one reply,
    /// the frames to send, and whether the client stops selecting protocol
    /// events (a part-all command releases the connection).
    pub fn handle_cmd(&mut self, action: TwitchCmdType) -> (r: (ActionRes, Vec<String>, bool))
        requires
            old(self).wf(),
            old(self).spec_state() == ClientState::Ready,
        ensures
            final(self).wf(),
            match action {
                TwitchCmdType::Connection(TwitchAction::Join(chs)) => {
                    &&& r.0 is Success
                    &&& views_of(r.1@) == views_of(chs@).map_values(
                        |c: Seq<char>| join_frame_of(c),
                    )
                    &&& r.2 == false
                    &&& final(self).spec_state() == ClientState::Ready
                    &&& forall|c: Seq<char>|
                        #![trigger final(self).has_channel(c)]
                        #![trigger old(self).has_channel(c)]
                        final(self).has_channel(c) <==> (old(self).has_channel(c) || views_of(
                            chs@,
                        ).contains(c))
                },
                TwitchCmdType::Connection(TwitchAction::Part(PartAction::Listed(chs))) => {
                    &&& r.0 is Success
                    &&& views_of(r.1@) == views_of(chs@).map_values(
                        |c: Seq<char>| part_frame_of(c),
                    )
                    &&& r.2 == false
                    &&& final(self).spec_state() == ClientState::Ready
                    &&& forall|c: Seq<char>|
                        #![trigger final(self).has_channel(c)]
                        #![trigger old(self).has_channel(c)]
                        final(self).has_channel(c) <==> (old(self).has_channel(c) && !views_of(
                            chs@,
                        ).contains(c))
                },
                TwitchCmdType::Connection(TwitchAction::Part(PartAction::All)) => {
                    &&& r.0 is Success
                    &&& r.1@.len() == 0
                    &&& r.2 == true
                    &&& final(self).spec_state() == ClientState::Closing
                    &&& final(self).spec_channels() == old(self).spec_channels()
                },
                TwitchCmdType::Connection(TwitchAction::Start(_)) => {
                    &&& (r.0 matches ActionRes::Failure { errors, level } ==> errors@.len() == 0
                        && level == FailureLevel::Critical)
                    &&& r.0 is Failure
                    &&& r.1@.len() == 0
                    &&& r.2 == false
                    &&& *final(self) == *old(self)
                },
                TwitchCmdType::Info(TwitchInfoCmd::Channels) => {
                    &&& (r.0 matches ActionRes::Data(s) && s@ == channels_json_of(
                        connection_label(),
                        old(self).spec_channels(),
                    ))
                    &&& r.1@.len() == 0
                    &&& r.2 == false
                    &&& *final(self) == *old(self)
                },
            },
    {
        match action {
            TwitchCmdType::Connection(a) => match a {
                TwitchAction::Join(chs) => {
                    let frames = self.join_many(&chs);
                    (ActionRes::Success, frames, false)
                },
                TwitchAction::Part(PartAction::Listed(chs)) => {
                    let (frames, _parted) = self.part_many(&chs);
                    (ActionRes::Success, frames, false)
                },
                TwitchAction::Part(PartAction::All) => {
                    let ghost pre = *self;
                    self.state = ClientState::Closing;
                    proof {
                        assert(self.spec_channels() == pre.spec_channels());
                        assert forall|i: int, j: int|
                            0 <= i < j < self.spec_channels().len() implies self.spec_channels()[i]
                            != self.spec_channels()[j] by {
                            assert(pre.spec_channels()[i] != pre.spec_channels()[j]);
                        }
                    }
                    (ActionRes::Success, Vec::new(), true)
                },
                TwitchAction::Start(_) => {
                    (
                        ActionRes::Failure { errors: Vec::new(), level: FailureLevel::Critical },
                        Vec::new(),
                        false,
                    )
                },
            },
            TwitchCmdType::Info(i) => match i {
                TwitchInfoCmd::Channels => {
                    let payload = channels_to_json("twitch", &self.channels);
                    (ActionRes::Data(payload), Vec::new(), false)
                },
            },
        }
    }

    /// The connection is released; terminal.
    pub fn close(&mut self)
        requires
            old(self).spec_state() == ClientState::Closing,
        ensures
            final(self).spec_state() == ClientState::Closed,
            final(self).spec_channels() == old(self).spec_channels(),
            final(self).wf() == old(self).wf(),
    {
        self.state = ClientState::Closed;
    }
}

/// Membership is the set of channel names the client keeps: believing a
/// channel joined is exactly having it in the channel list.
pub proof fn lemma_membership_meaning(client: TwitchClient, c: Seq<char>)
    ensures
        client.has_channel(c) <==> client.spec_channels().contains(c),
{
}

/// A frame holding one keepalive line produces exactly one outbound reply,
/// the matching keepalive answer, and no chat event: the frame has a single
/// line, and the only effect that line admits is the reply frame.
pub proof fn lemma_ping_frame(raw: Seq<char>)
    requires
        line_is_ping(raw),
        split_crlf(raw) == seq![raw],
    ensures
        nonblank(split_crlf(raw)) == seq![raw],
        line_wellformed(raw),
        forall|e: IrcEffect|
            #[trigger] effect_matches(e, raw) ==> (e matches IrcEffect::SendFrame(s) && s@
                == "PONG "@ + split_on(raw, ' ')[1]),
{
    if raw.len() == 0 {
        assert(split_on(raw, ' ') =~= seq![Seq::<char>::empty()]);
        assert(false);
    }
    lemma_nonblank_single(raw);
}

/// A part command for channels never joined actually parts nothing: its
/// reported list is empty (while the command itself still succeeds).
pub proof fn lemma_part_never_joined(mem: Seq<Seq<char>>, req: Seq<Seq<char>>)
    requires
        forall|i: int| 0 <= i < req.len() ==> !mem.contains(#[trigger] req[i]),
    ensures
        parted_of(mem, req).len() == 0,
    decreases req.len(),
{
    if req.len() != 0 {
        assert(!mem.contains(req.last()));
        assert(forall|i: int|
            0 <= i < req.drop_last().len() ==> !mem.contains(#[trigger] req.drop_last()[i]));
        lemma_part_never_joined(mem, req.drop_last());
    }
}

/// The effect one wellformed line has: a keepalive is answered on the
/// connection, a chat line goes to the dispatcher.
pub open spec fn effect_matches(e: IrcEffect, line: Seq<char>) -> bool {
    if line_is_chat(line) {
        e matches IrcEffect::EmitMessage(s) && s@ == line
    } else {
        e matches IrcEffect::SendFrame(s) && s@ == "PONG "@ + split_on(line, ' ')[1]
    }
}

/// Turns one classified line into the effect it has.
pub fn handle_irc(m: IrcMessage) -> (e: IrcEffect)
    ensures
        match m {
            IrcMessage::Ping(pong) => e == IrcEffect::SendFrame(pong),
            IrcMessage::Privmsg(text) => e == IrcEffect::EmitMessage(text),
        },
{
    match m {
        IrcMessage::Ping(pong) => IrcEffect::SendFrame(pong),
        IrcMessage::Privmsg(text) => IrcEffect::EmitMessage(text),
    }
}

} // verus!
