//! The per-connection driver core: it owns the session's framer and state
//! machine, routes incoming bytes either to the command loop or to the
//! body accumulator, and renders replies into their wire form. The socket
//! itself lives outside the library; it hands chunks of bytes in and
//! writes the returned replies out.

use vstd::prelude::*;
use vstd::string::StrSliceExecFns;
use vstd::string::StringExecFns;

use crate::command::{Command, ParseFailure, ParserError, spec_parse};
use crate::config::{Capability, Config};
use crate::flow::{Flow, FlowModel};
use crate::framer::{spec_extract, LineReader, LF};
use crate::state::{spec_transition, State, StateModel};
use crate::text::{sanitize_line, spec_sanitize, spec_udec, u64_to_string};

verus! {

/// Why a session step failed. All but write failures are survivable: the
/// driver reports them with an error reply and the session continues.
#[derive(Debug)]
pub enum ClientError {
    MaxLength,
    InvalidSmtpCommand(ParserError),
    StateError(crate::state::Error),
    EmailParse(String),
    Handler(String),
    /// Bytes followed the `STARTTLS` line in the same stream. Honouring
    /// them would let a plaintext attacker inject commands into the TLS
    /// session, so they are dropped and the error is fatal: the driver
    /// closes the connection instead of upgrading.
    PipelinedAfterStartTls,
}

/// The mathematical model of a [`ClientError`].
pub enum ClientErrorModel {
    MaxLength,
    InvalidSmtpCommand(ParseFailure),
    StateError(Seq<char>),
    EmailParse(Seq<char>),
    Handler(Seq<char>),
    PipelinedAfterStartTls,
}

impl View for ClientError {
    type V = ClientErrorModel;

    open spec fn view(&self) -> ClientErrorModel {
        match self {
            ClientError::MaxLength => ClientErrorModel::MaxLength,
            ClientError::InvalidSmtpCommand(e) => ClientErrorModel::InvalidSmtpCommand(e@),
            ClientError::StateError(e) => ClientErrorModel::StateError(e@),
            ClientError::EmailParse(m) => ClientErrorModel::EmailParse(m@),
            ClientError::Handler(m) => ClientErrorModel::Handler(m@),
            ClientError::PipelinedAfterStartTls => ClientErrorModel::PipelinedAfterStartTls,
        }
    }
}

/// The one-line text of a parse error.
pub open spec fn spec_parser_error_text(e: ParseFailure) -> Seq<char> {
    match e {
        ParseFailure::InputTooShort => "Input too short"@,
        ParseFailure::UnknownSmtpCommand => "Unknown SMTP command"@,
        ParseFailure::InvalidSmtpCommand(m) => m,
        ParseFailure::MissingFromAddress => "Missing FROM address"@,
    }
}

/// The one-line text of a session error, as surfaced to the client in an
/// error reply.
pub open spec fn spec_client_error_text(e: ClientErrorModel) -> Seq<char> {
    match e {
        ClientErrorModel::MaxLength => "Too much data received"@,
        ClientErrorModel::InvalidSmtpCommand(pe) => spec_parser_error_text(pe),
        ClientErrorModel::StateError(hint) => "Unknown command, expected "@ + hint,
        ClientErrorModel::EmailParse(m) => "Could not parse email: "@ + m,
        ClientErrorModel::Handler(m) => m,
        ClientErrorModel::PipelinedAfterStartTls => "Pipelined data after STARTTLS"@,
    }
}

impl ClientError {
    /// The one-line text of this error.
    pub fn description(&self) -> (r: String)
        ensures
            r@ == spec_client_error_text(self@),
    {
        match self {
            ClientError::MaxLength => "Too much data received".to_owned(),
            ClientError::InvalidSmtpCommand(pe) => match pe {
                ParserError::InputTooShort => "Input too short".to_owned(),
                ParserError::UnknownSmtpCommand => "Unknown SMTP command".to_owned(),
                ParserError::InvalidSmtpCommand(m) => (*m).to_owned(),
                ParserError::MissingFromAddress => "Missing FROM address".to_owned(),
            },
            ClientError::StateError(e) => match e {
                crate::state::Error::UnknownCommand { expected } => String::from_str(
                    "Unknown command, expected ",
                ).concat(expected),
            },
            ClientError::EmailParse(m) => String::from_str("Could not parse email: ").concat(
                m.as_str(),
            ),
            ClientError::Handler(m) => m.clone(),
            ClientError::PipelinedAfterStartTls => "Pipelined data after STARTTLS".to_owned(),
        }
    }
}

/// Every byte is ASCII.
pub open spec fn all_ascii(b: Seq<u8>) -> bool {
    forall|k: int| 0 <= k < b.len() ==> b[k] < 128
}

/// What `String::from_utf8_lossy` makes of a byte sequence. The decoding
/// depends on the bytes alone.
pub uninterp spec fn decoded_of(b: Seq<u8>) -> Seq<char>;

/// Relies on String::from_utf8_lossy: the decoding is a pure function of
/// the bytes, and ASCII bytes decode to exactly their own characters.
#[verifier::external_body]
fn decode_lossy(b: &Vec<u8>) -> (r: String)
    ensures
        r@ == decoded_of(b@),
        all_ascii(b@) ==> r@ == b@.map_values(|x: u8| x as char),
{
    String::from_utf8_lossy(b.as_slice()).into_owned()
}

/// The five bytes `\r\n.\r\n` that end a message body.
pub open spec fn spec_terminator() -> Seq<u8> {
    seq![13u8, 10u8, 46u8, 13u8, 10u8]
}

/// The byte sequence ends with the body terminator `\r\n.\r\n`.
pub open spec fn ends_with_terminator(b: Seq<u8>) -> bool {
    b.len() >= 5 && b.subrange(b.len() - 5, b.len() as int) == spec_terminator()
}

/// Whether the accumulated body ends with the terminator, byte-exactly.
fn check_terminator(body: &Vec<u8>) -> (r: bool)
    ensures
        r == ends_with_terminator(body@),
{
    let l: usize = body.len();
    if l < 5 {
        return false;
    }
    let ok: bool = body[l - 5] == 13 && body[l - 4] == 10 && body[l - 3] == 46 && body[l - 2]
        == 13 && body[l - 1] == 10;
    proof {
        let sub = body@.subrange(l - 5, l as int);
        if ok {
            assert(sub =~= spec_terminator());
        } else {
            if sub == spec_terminator() {
                assert(body@[l - 5] == sub[0] && body@[l - 4] == sub[1] && body@[l - 3] == sub[2]
                    && body@[l - 2] == sub[3] && body@[l - 1] == sub[4]);
            }
        }
    }
    ok
}

/// One step of body accumulation: the incoming bytes join the buffer;
/// an overrun of `max` drops the buffer, fails, and returns the session
/// to its initial state so that a fresh `EHLO` is accepted; the
/// terminator completes the message; anything else keeps accumulating
/// silently.
pub open spec fn spec_body_step(
    sender: Seq<char>,
    recipient: Seq<char>,
    body: Seq<u8>,
    data: Seq<u8>,
    max: nat,
) -> (StateModel, Result<Option<FlowModel>, ClientErrorModel>) {
    let nb = body + data;
    if nb.len() > max {
        (StateModel::Initial, Err(ClientErrorModel::MaxLength))
    } else if ends_with_terminator(nb) {
        (
            StateModel::Done,
            Ok(Some(FlowModel::EmailReceived { sender, recipient, body: nb })),
        )
    } else {
        (StateModel::ReceivingBody { sender, recipient, body: nb }, Ok(None))
    }
}

/// The entries one body-accumulation outcome contributes to the list of
/// actions owed to the client.
pub open spec fn body_entries(r2: Result<Option<FlowModel>, ClientErrorModel>) -> Seq<
    Result<FlowModel, ClientErrorModel>,
> {
    match r2 {
        Ok(None) => Seq::empty(),
        Ok(Some(f)) => seq![Ok(f)],
        Err(e) => seq![Err(e)],
    }
}

/// The command loop over everything buffered: extract a line, decode it,
/// parse it, feed it through the state machine, and repeat, collecting
/// every line's action or survivable error in arrival order. An
/// over-long line stops the loop with the framer cleared; a transition
/// into body accumulation routes the bytes still buffered into the body;
/// and the TLS upgrade honours no pipelining: it is only granted as the
/// stream's last action, with nothing retained, while bytes that follow
/// the `STARTTLS` line are dropped with a fatal error in place of the
/// upgrade. The three parts are the session state, the bytes the framer
/// retains, and the actions owed.
pub open spec fn spec_drive(
    state: StateModel,
    buf: Seq<u8>,
    caps: Seq<Capability>,
    max: nat,
    is_tls: bool,
) -> (StateModel, Seq<u8>, Seq<Result<FlowModel, ClientErrorModel>>)
    decreases buf.len(),
        via spec_drive_decreases
{
    match spec_extract(buf) {
        None => if buf.len() > max {
            (state, Seq::empty(), seq![Err(ClientErrorModel::MaxLength)])
        } else {
            (state, buf, Seq::empty())
        },
        Some((lb, term, rest)) => if lb.len() > max {
            (state, Seq::empty(), seq![Err(ClientErrorModel::MaxLength)])
        } else {
            match spec_parse(decoded_of(lb)) {
                Err(pe) => {
                    let (st2, buf2, tail) = spec_drive(state, rest, caps, max, is_tls);
                    (st2, buf2, seq![Err(ClientErrorModel::InvalidSmtpCommand(pe))] + tail)
                },
                Ok(cmd) => match spec_transition(state, cmd, caps, max, is_tls) {
                    Err(hint) => {
                        let (st2, buf2, tail) = spec_drive(state, rest, caps, max, is_tls);
                        (st2, buf2, seq![Err(ClientErrorModel::StateError(hint))] + tail)
                    },
                    Ok((post, flow)) => if flow is UpgradeTls {
                        if rest.len() > 0 {
                            (post, Seq::empty(), seq![Err(ClientErrorModel::PipelinedAfterStartTls)])
                        } else {
                            (post, rest, seq![Ok(flow)])
                        }
                    } else {
                        match post {
                            StateModel::ReceivingBody { sender, recipient, body } => {
                                if rest.len() > 0 {
                                    let (st2, r2) = spec_body_step(
                                        sender,
                                        recipient,
                                        body,
                                        rest,
                                        max,
                                    );
                                    (st2, Seq::empty(), seq![Ok(flow)] + body_entries(r2))
                                } else {
                                    (
                                        StateModel::ReceivingBody { sender, recipient, body },
                                        rest,
                                        seq![Ok(flow)],
                                    )
                                }
                            },
                            _ => {
                                let (st2, buf2, tail) = spec_drive(post, rest, caps, max, is_tls);
                                (st2, buf2, seq![Ok(flow)] + tail)
                            },
                        }
                    },
                },
            }
        },
    }
}

#[via_fn]
proof fn spec_drive_decreases(
    state: StateModel,
    buf: Seq<u8>,
    caps: Seq<Capability>,
    max: nat,
    is_tls: bool,
) {
    crate::text::lemma_spec_find(buf, LF);
}

/// The views of the collected per-line outcomes.
pub open spec fn results_view(v: Seq<Result<Flow, ClientError>>) -> Seq<
    Result<FlowModel, ClientErrorModel>,
> {
    v.map_values(
        |r: Result<Flow, ClientError>|
            match r {
                Ok(f) => Ok(f@),
                Err(e) => Err(e@),
            },
    )
}

/// The view of one body-accumulation step's outcome.
pub open spec fn step_view(r: Result<Option<Flow>, ClientError>) -> Result<
    Option<FlowModel>,
    ClientErrorModel,
> {
    match r {
        Ok(Some(f)) => Ok(Some(f@)),
        Ok(None) => Ok(None),
        Err(e) => Err(e@),
    }
}

/// The entry grants the TLS upgrade.
pub open spec fn is_upgrade_entry(e: Result<FlowModel, ClientErrorModel>) -> bool {
    e == Ok::<FlowModel, ClientErrorModel>(FlowModel::UpgradeTls)
}

/// The entry either is an error, or an action other than delivery, or a
/// delivery whose raw body carries the terminator.
pub open spec fn delivered_with_terminator(e: Result<FlowModel, ClientErrorModel>) -> bool {
    match e {
        Ok(FlowModel::EmailReceived { body, .. }) => ends_with_terminator(body),
        _ => true,
    }
}

/// One client connection's session: the line framer, the protocol state
/// machine, who the peer is, and the configuration the session runs
/// under. The socket stays outside.
pub struct Connection {
    pub codec: LineReader,
    pub smtp: State,
    pub peer_addr: String,
    pub used_ssl: bool,
    pub config: Config,
}

impl Connection {
    /// The connection's structural invariant: the framer bound is the
    /// configured maximum receive length, and while a body is being
    /// accumulated no bytes sit in the framer.
    pub open spec fn wf(self) -> bool {
        &&& self.codec.max_length == self.config.max_receive_length
        &&& self.smtp@ is ReceivingBody ==> self.codec.buffer@.len() == 0
    }

    /// A fresh session in the initial state.
    pub fn new(config: Config, peer_addr: String, used_ssl: bool) -> (r: Self)
        ensures
            r.wf(),
            r.smtp@ is Initial,
            r.codec.buffer@ == Seq::<u8>::empty(),
            r.config == config,
            r.peer_addr == peer_addr,
            r.used_ssl == used_ssl,
    {
        let max: usize = config.max_receive_length;
        Connection {
            codec: LineReader::new(max),
            smtp: State::Initial,
            peer_addr,
            used_ssl,
            config,
        }
    }

    /// The greeting written when the connection opens.
    pub fn new_connection_message(&self) -> (r: String)
        ensures
            r@ == "220 "@ + self.config.hostname@ + " "@ + self.config.mail_server_name@
                + "\r\n"@,
    {
        String::from_str("220 ").concat(self.config.hostname.as_str()).concat(" ").concat(
            self.config.mail_server_name.as_str(),
        ).concat("\r\n")
    }

    /// One step of body accumulation, on a session that is receiving a
    /// body.
    fn body_received(&mut self, data: &Vec<u8>) -> (r: Result<Option<Flow>, ClientError>)
        requires
            old(self).smtp@ is ReceivingBody,
        ensures
            final(self).codec == old(self).codec,
            final(self).config == old(self).config,
            final(self).peer_addr == old(self).peer_addr,
            final(self).used_ssl == old(self).used_ssl,
            match old(self).smtp@ {
                StateModel::ReceivingBody { sender, recipient, body } => {
                    let (st2, r2) = spec_body_step(
                        sender,
                        recipient,
                        body,
                        data@,
                        old(self).config.max_receive_length as nat,
                    );
                    final(self).smtp@ == st2 && r2 == step_view(r)
                },
                _ => false,
            },
    {
        let mut st = State::Initial;
        core::mem::swap(&mut self.smtp, &mut st);
        match st {
            State::ReceivingBody { sender, recipient, mut body } => {
                let ghost b0 = body@;
                body.extend_from_slice(data.as_slice());
                proof {
                    assert(body@ =~= b0 + data@);
                }
                if body.len() > self.config.max_receive_length {
                    self.smtp = State::Initial;
                    Err(ClientError::MaxLength)
                } else if check_terminator(&body) {
                    self.smtp = State::Done;
                    Ok(Some(Flow::EmailReceived { sender, recipient, body }))
                } else {
                    self.smtp = State::ReceivingBody { sender, recipient, body };
                    Ok(None)
                }
            },
            _ => {
                proof {
                    assert(false);
                }
                Err(ClientError::MaxLength)
            },
        }
    }

    /// Feed a chunk of received bytes into the session. While a body is
    /// being accumulated the bytes go straight to the body buffer;
    /// otherwise they join the framer and every complete line runs
    /// through the parser and the state machine. Each line's action, or
    /// the survivable error it provoked, is returned in arrival order;
    /// the driver answers every error with a 500-class reply and the
    /// session continues.
    pub fn data_received(&mut self, bytes: &Vec<u8>, is_tls: bool) -> (r: Vec<
        Result<Flow, ClientError>,
    >)
        requires
            old(self).wf(),
        ensures
            final(self).wf(),
            final(self).config == old(self).config,
            final(self).peer_addr == old(self).peer_addr,
            final(self).used_ssl == old(self).used_ssl,
            // No message reaches delivery without the body terminator.
            forall|k: int|
                0 <= k < results_view(r@).len() ==> delivered_with_terminator(
                    #[trigger] results_view(r@)[k],
                ),
            // No pipelining across the TLS upgrade: when the upgrade is
            // granted it is the last action, the framer retains nothing,
            // and the session stands in the initial state, so the
            // handshake begins on an empty buffer and the client must
            // introduce itself again.
            forall|k: int|
                0 <= k < results_view(r@).len() ==> (is_upgrade_entry(
                    #[trigger] results_view(r@)[k],
                ) ==> k == results_view(r@).len() - 1 && final(self).codec.buffer@.len() == 0
                    && final(self).smtp@ is Initial),
            match old(self).smtp@ {
                StateModel::ReceivingBody { sender, recipient, body } => {
                    let (st2, r2) = spec_body_step(
                        sender,
                        recipient,
                        body,
                        bytes@,
                        old(self).config.max_receive_length as nat,
                    );
                    final(self).smtp@ == st2 && results_view(r@) == body_entries(r2)
                        && final(self).codec == old(self).codec
                },
                _ => {
                    let (post, buf2, acts) = spec_drive(
                        old(self).smtp@,
                        old(self).codec.buffer@ + bytes@,
                        old(self).config.capabilities@,
                        old(self).config.max_receive_length as nat,
                        is_tls,
                    );
                    final(self).smtp@ == post && final(self).codec.buffer@ == buf2
                        && results_view(r@) == acts
                },
            },
    {
        let ghost caps = self.config.capabilities@;
        let ghost max = self.config.max_receive_length as nat;
        let mut out: Vec<Result<Flow, ClientError>> = Vec::new();
        proof {
            assert(results_view(out@) =~= Seq::<Result<FlowModel, ClientErrorModel>>::empty());
        }
        if matches!(self.smtp, State::ReceivingBody { .. }) {
            let br = self.body_received(bytes);
            let ghost brv = step_view(br);
            match br {
                Ok(None) => {},
                Ok(Some(f)) => {
                    out.push(Ok(f));
                },
                Err(e) => {
                    out.push(Err(e));
                },
            }
            proof {
                assert(results_view(out@) =~= body_entries(brv));
            }
            return out;
        }
        self.codec.feed(bytes);
        let ghost target = spec_drive(old(self).smtp@, old(self).codec.buffer@ + bytes@, caps, max, is_tls);
        loop
            invariant
                !(self.smtp@ is ReceivingBody),
                !(old(self).smtp@ is ReceivingBody),
                self.config == old(self).config,
                self.peer_addr == old(self).peer_addr,
                self.used_ssl == old(self).used_ssl,
                self.codec.max_length == old(self).codec.max_length,
                self.codec.max_length == self.config.max_receive_length,
                caps == self.config.capabilities@,
                max == self.config.max_receive_length as nat,
                target == spec_drive(
                    old(self).smtp@,
                    old(self).codec.buffer@ + bytes@,
                    caps,
                    max,
                    is_tls,
                ),
                target == ({
                    let (p, b, a) = spec_drive(self.smtp@, self.codec.buffer@, caps, max, is_tls);
                    (p, b, results_view(out@) + a)
                }),
                forall|k: int|
                    0 <= k < results_view(out@).len() ==> delivered_with_terminator(
                        #[trigger] results_view(out@)[k],
                    ),
                forall|k: int|
                    0 <= k < results_view(out@).len() ==> !is_upgrade_entry(
                        #[trigger] results_view(out@)[k],
                    ),
            decreases self.codec.buffer@.len(),
        {
            let ghost cur_buf = self.codec.buffer@;
            let ghost cur_state = self.smtp@;
            let ghost before = results_view(out@);
            proof {
                crate::framer::lemma_framer_conservative(cur_buf);
            }
            match self.codec.next_line() {
                Err(_) => {
                    out.push(Err(ClientError::MaxLength));
                    proof {
                        assert(results_view(out@) =~= before.push(
                            Err(ClientErrorModel::MaxLength),
                        ));
                        assert(before + seq![
                            Err::<FlowModel, ClientErrorModel>(ClientErrorModel::MaxLength),
                        ] =~= results_view(out@));
                    }
                    return out;
                },
                Ok(None) => {
                    proof {
                        assert(before + Seq::<Result<FlowModel, ClientErrorModel>>::empty()
                            =~= before);
                    }
                    return out;
                },
                Ok(Some(lbytes)) => {
                    let line: String = decode_lossy(&lbytes);
                    let ghost drive_rest = spec_drive(cur_state, self.codec.buffer@, caps, max, is_tls);
                    let cmd: Command = match Command::parse(line.as_str()) {
                        Ok(c) => c,
                        Err(e) => {
                            let ghost ev = ClientErrorModel::InvalidSmtpCommand(e@);
                            out.push(Err(ClientError::InvalidSmtpCommand(e)));
                            proof {
                                assert(results_view(out@) =~= before.push(Err(ev)));
                                assert(before + (seq![Err::<FlowModel, ClientErrorModel>(ev)]
                                    + drive_rest.2) =~= results_view(out@) + drive_rest.2);
                            }
                            continue;
                        },
                    };
                    let ghost cmdv = cmd@;
                    let flow: Flow = match self.smtp.handle_command(cmd, &self.config, is_tls) {
                        Ok(f) => f,
                        Err(e) => {
                            let ghost ev = ClientErrorModel::StateError(e@);
                            out.push(Err(ClientError::StateError(e)));
                            proof {
                                assert(results_view(out@) =~= before.push(Err(ev)));
                                assert(before + (seq![Err::<FlowModel, ClientErrorModel>(ev)]
                                    + drive_rest.2) =~= results_view(out@) + drive_rest.2);
                            }
                            continue;
                        },
                    };
                    proof {
                        crate::state::lemma_transition_no_email_received(
                            cur_state,
                            cmdv,
                            caps,
                            max,
                            is_tls,
                        );
                    }
                    if matches!(flow, Flow::UpgradeTls) {
                        // No pipelining across the TLS upgrade: anything
                        // already buffered behind the STARTTLS line is
                        // dropped, and the upgrade is refused with a
                        // fatal error in its place.
                        proof {
                            crate::state::lemma_upgrade_only_from_ehlo(
                                cur_state,
                                cmdv,
                                caps,
                                max,
                                is_tls,
                            );
                        }
                        let mut leftover: Vec<u8> = Vec::new();
                        core::mem::swap(&mut self.codec.buffer, &mut leftover);
                        if leftover.len() > 0 {
                            out.push(Err(ClientError::PipelinedAfterStartTls));
                            proof {
                                assert(self.codec.buffer@ =~= Seq::<u8>::empty());
                                assert(results_view(out@) =~= before.push(Err::<
                                    FlowModel,
                                    ClientErrorModel,
                                >(ClientErrorModel::PipelinedAfterStartTls)));
                                assert(before + seq![Err::<FlowModel, ClientErrorModel>(
                                    ClientErrorModel::PipelinedAfterStartTls,
                                )] =~= results_view(out@));
                            }
                            return out;
                        } else {
                            let ghost fv = flow@;
                            out.push(Ok(flow));
                            proof {
                                assert(self.codec.buffer@ =~= Seq::<u8>::empty());
                                assert(results_view(out@) =~= before.push(
                                    Ok::<FlowModel, ClientErrorModel>(fv),
                                ));
                                assert(before + seq![Ok::<FlowModel, ClientErrorModel>(fv)]
                                    =~= results_view(out@));
                            }
                            return out;
                        }
                    }
                    let ghost fv = flow@;
                    out.push(Ok(flow));
                    proof {
                        assert(results_view(out@) =~= before.push(
                            Ok::<FlowModel, ClientErrorModel>(fv),
                        ));
                    }
                    if matches!(self.smtp, State::ReceivingBody { .. }) {
                        let ghost after_flow = results_view(out@);
                        let mut leftover: Vec<u8> = Vec::new();
                        core::mem::swap(&mut self.codec.buffer, &mut leftover);
                        if leftover.len() > 0 {
                            let br = self.body_received(&leftover);
                            let ghost brv = step_view(br);
                            match br {
                                Ok(None) => {},
                                Ok(Some(f2)) => {
                                    out.push(Ok(f2));
                                },
                                Err(e2) => {
                                    out.push(Err(e2));
                                },
                            }
                            proof {
                                assert(results_view(out@) =~= after_flow + body_entries(brv));
                                assert(before + (seq![Ok::<FlowModel, ClientErrorModel>(fv)]
                                    + body_entries(brv)) =~= results_view(out@));
                            }
                            return out;
                        } else {
                            proof {
                                assert(self.codec.buffer@ =~= Seq::<u8>::empty());
                                assert(before + seq![Ok::<FlowModel, ClientErrorModel>(fv)]
                                    =~= results_view(out@));
                            }
                            return out;
                        }
                    }
                    proof {
                        let next_d = spec_drive(self.smtp@, self.codec.buffer@, caps, max, is_tls);
                        assert(before + (seq![Ok::<FlowModel, ClientErrorModel>(fv)] + next_d.2)
                            =~= results_view(out@) + next_d.2);
                    }
                },
            }
        }
    }
}

/// The wire form of a single-line reply: the code, a space, the text and
/// the CRLF terminator.
pub fn render_reply(code: u32, text: &str) -> (r: String)
    ensures
        r@ == spec_udec(code as nat) + " "@ + text@ + "\r\n"@,
{
    let mut s: String = u64_to_string(code as u64);
    s.append(" ");
    s.append(text);
    s.append("\r\n");
    s
}

/// The wire form of a multi-line reply: every line carries the code,
/// joined to the text by `-` on all lines but the last, which uses a
/// space, as continuation syntax demands.
pub open spec fn spec_render_multiline(code: u32, lines: Seq<Seq<char>>) -> Seq<char>
    decreases lines.len(),
{
    if lines.len() == 0 {
        Seq::empty()
    } else if lines.len() == 1 {
        spec_udec(code as nat) + " "@ + lines[0] + "\r\n"@
    } else {
        spec_udec(code as nat) + "-"@ + lines[0] + "\r\n"@ + spec_render_multiline(
            code,
            lines.drop_first(),
        )
    }
}

/// The wire form of a multi-line reply.
pub fn render_multiline(code: u32, lines: &Vec<String>) -> (r: String)
    ensures
        r@ == spec_render_multiline(code, crate::flow::lines_view(lines@)),
{
    let ghost lv = crate::flow::lines_view(lines@);
    let n: usize = lines.len();
    let mut out = String::new();
    let mut i: usize = 0;
    proof {
        assert(lv.skip(0) =~= lv);
        assert(out@ + spec_render_multiline(code, lv) =~= spec_render_multiline(code, lv));
    }
    while i < n
        invariant
            0 <= i <= n,
            n == lines@.len(),
            lv == crate::flow::lines_view(lines@),
            out@ + spec_render_multiline(code, lv.skip(i as int)) == spec_render_multiline(
                code,
                lv,
            ),
        decreases n - i,
    {
        let ghost before = out@;
        let code_str: String = u64_to_string(code as u64);
        out.append(code_str.as_str());
        if i + 1 == n {
            out.append(" ");
        } else {
            out.append("-");
        }
        out.append(lines[i].as_str());
        out.append("\r\n");
        proof {
            let suf = lv.skip(i as int);
            assert(suf[0] == lv[i as int]);
            assert(suf.drop_first() =~= lv.skip(i as int + 1));
            if i + 1 == n {
                assert(suf.len() == 1);
                assert(out@ =~= before + (spec_udec(code as nat) + " "@ + lv[i as int]
                    + "\r\n"@));
                assert(lv.skip(i as int + 1) =~= Seq::<Seq<char>>::empty());
                assert(out@ + spec_render_multiline(code, lv.skip(i as int + 1)) =~= out@);
            } else {
                assert(suf.len() > 1);
                assert(out@ =~= before + (spec_udec(code as nat) + "-"@ + lv[i as int]
                    + "\r\n"@));
                assert(before + (spec_udec(code as nat) + "-"@ + lv[i as int] + "\r\n"@
                    + spec_render_multiline(code, lv.skip(i as int + 1))) =~= out@
                    + spec_render_multiline(code, lv.skip(i as int + 1)));
            }
        }
        i += 1;
    }
    proof {
        if n == 0 {
            assert(out@ + spec_render_multiline(code, lv.skip(0)) =~= out@);
        }
    }
    out
}

/// The wire form of the error reply for a survivable session error: code
/// 500, the error's text flattened onto one line, and CRLF.
pub fn error_reply(e: &ClientError) -> (r: String)
    ensures
        r@ == "500 "@ + spec_sanitize(spec_client_error_text(e@)) + "\r\n"@,
{
    let d: String = e.description();
    let s: String = sanitize_line(d.as_str());
    String::from_str("500 ").concat(s.as_str()).concat("\r\n")
}

} // verus!
