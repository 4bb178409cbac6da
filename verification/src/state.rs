//! The per-session SMTP protocol state machine: it drives a session
//! through its legal states and produces the action the connection driver
//! must perform after each command.

use vstd::prelude::*;
use vstd::string::StringExecFns;

use crate::command::{Command, ParsedCommand};
use crate::config::{spec_capability_tag, spec_has_capability, Capability, Config};
use crate::flow::{lines_view, Flow, FlowModel};

verus! {

/// Where a session stands. Only `ReceivingBody` owns a body buffer; once
/// the buffer is handed to the delivery pipeline the next state never
/// resurrects it.
#[derive(Clone)]
pub enum State {
    Initial,
    EhloReceived,
    SenderReceived { sender: String },
    RecipientReceived { sender: String, recipient: String },
    ReceivingBody { sender: String, recipient: String, body: Vec<u8> },
    Done,
}

/// The state machine's refusal of a command: the hint names what the
/// current state expects instead.
#[derive(Debug)]
pub enum Error {
    UnknownCommand { expected: &'static str },
}

/// The mathematical model of a [`State`].
pub enum StateModel {
    Initial,
    EhloReceived,
    SenderReceived { sender: Seq<char> },
    RecipientReceived { sender: Seq<char>, recipient: Seq<char> },
    ReceivingBody { sender: Seq<char>, recipient: Seq<char>, body: Seq<u8> },
    Done,
}

impl View for State {
    type V = StateModel;

    open spec fn view(&self) -> StateModel {
        match self {
            State::Initial => StateModel::Initial,
            State::EhloReceived => StateModel::EhloReceived,
            State::SenderReceived { sender } => StateModel::SenderReceived { sender: sender@ },
            State::RecipientReceived { sender, recipient } => StateModel::RecipientReceived {
                sender: sender@,
                recipient: recipient@,
            },
            State::ReceivingBody { sender, recipient, body } => StateModel::ReceivingBody {
                sender: sender@,
                recipient: recipient@,
                body: body@,
            },
            State::Done => StateModel::Done,
        }
    }
}

impl View for Error {
    type V = Seq<char>;

    open spec fn view(&self) -> Seq<char> {
        match self {
            Error::UnknownCommand { expected } => expected@,
        }
    }
}

/// The hint sent to a client whose command does not fit the current state.
pub open spec fn spec_expected(state: StateModel) -> Seq<char> {
    match state {
        StateModel::Initial => "EHLO"@,
        StateModel::EhloReceived => "MAIL FROM"@,
        StateModel::SenderReceived { .. } => "RCPT TO"@,
        StateModel::RecipientReceived { .. } => "BODY"@,
        StateModel::ReceivingBody { .. } => Seq::empty(),
        StateModel::Done => "QUIT or RSET"@,
    }
}

/// The lines a capability contributes to the EHLO reply: its tag line,
/// except that `STARTTLS` is suppressed on a session that already runs
/// over TLS.
pub open spec fn spec_cap_line(c: Capability, max: nat, is_tls: bool) -> Seq<Seq<char>> {
    if is_tls && c == Capability::StartTls {
        Seq::empty()
    } else {
        seq![spec_capability_tag(c, max)]
    }
}

/// The capability lines of the EHLO reply, in configuration order.
pub open spec fn spec_cap_lines(caps: Seq<Capability>, max: nat, is_tls: bool) -> Seq<Seq<char>>
    decreases caps.len(),
{
    if caps.len() == 0 {
        Seq::empty()
    } else {
        spec_cap_line(caps.first(), max, is_tls) + spec_cap_lines(caps.drop_first(), max, is_tls)
    }
}

/// The full EHLO reply: the greeting line, then one line per advertised
/// capability.
pub open spec fn spec_ehlo_lines(host: Seq<char>, caps: Seq<Capability>, max: nat, is_tls: bool)
    -> Seq<Seq<char>> {
    seq![host + ", nice to meet you!"@] + spec_cap_lines(caps, max, is_tls)
}

/// The transition relation of the session state machine: from a state and
/// a command to the next state and the action owed to the client, or to
/// the refusal hint. Commands that fit no rule leave the state unchanged.
pub open spec fn spec_transition(
    state: StateModel,
    cmd: ParsedCommand,
    caps: Seq<Capability>,
    max: nat,
    is_tls: bool,
) -> Result<(StateModel, FlowModel), Seq<char>> {
    match (state, cmd) {
        (StateModel::Initial, ParsedCommand::Ehlo { host }) => Ok(
            (
                StateModel::EhloReceived,
                FlowModel::ReplyMultiline(250, spec_ehlo_lines(host, caps, max, is_tls)),
            ),
        ),
        (StateModel::EhloReceived, ParsedCommand::MailFrom { address, .. }) => Ok(
            (
                StateModel::SenderReceived { sender: address },
                FlowModel::Reply(250, "Tell them I said hi"@),
            ),
        ),
        (StateModel::SenderReceived { sender }, ParsedCommand::RecipientTo { address }) => Ok(
            (
                StateModel::RecipientReceived { sender, recipient: address },
                FlowModel::Reply(250, "I'll make sure to get this to them"@),
            ),
        ),
        (StateModel::RecipientReceived { sender, recipient }, ParsedCommand::Data) => Ok(
            (
                StateModel::ReceivingBody { sender, recipient, body: Seq::empty() },
                FlowModel::Reply(354, "Go ahead, I'm listening (end with \\r\\n.\\r\\n)"@),
            ),
        ),
        (StateModel::Done, ParsedCommand::Reset) => Ok(
            (
                StateModel::EhloReceived,
                FlowModel::Reply(250, "We're ready to go another round!"@),
            ),
        ),
        (_, ParsedCommand::Quit) => Ok((StateModel::Initial, FlowModel::Quit)),
        (_, ParsedCommand::Reset) => Ok(
            (StateModel::EhloReceived, FlowModel::Reply(250, "I'm sorry, who are you again?"@)),
        ),
        (StateModel::EhloReceived, ParsedCommand::StartTls) => if spec_has_capability(
            caps,
            Capability::StartTls,
        ) {
            Ok((StateModel::Initial, FlowModel::UpgradeTls))
        } else {
            Err(spec_expected(StateModel::EhloReceived))
        },
        (st, _) => Err(spec_expected(st)),
    }
}

/// Law: the machine enters `ReceivingBody` only through the `Data` command
/// issued in `RecipientReceived`; no other transition produces that state,
/// the envelope is carried over unchanged, and the fresh body is empty.
pub proof fn lemma_receiving_body_only_from_data(
    state: StateModel,
    cmd: ParsedCommand,
    caps: Seq<Capability>,
    max: nat,
    is_tls: bool,
)
    ensures
        match spec_transition(state, cmd, caps, max, is_tls) {
            Ok((post, flow)) => match post {
                StateModel::ReceivingBody { sender, recipient, body } => state
                    == StateModel::RecipientReceived { sender, recipient } && cmd is Data && body
                    == Seq::<u8>::empty(),
                _ => true,
            },
            Err(_) => true,
        },
{
}

/// Law: the upgrade action arises only from `STARTTLS` issued in
/// `EhloReceived` with the capability advertised, and it always returns
/// the session to `Initial`, so the client must introduce itself again
/// after the handshake.
pub proof fn lemma_upgrade_only_from_ehlo(
    state: StateModel,
    cmd: ParsedCommand,
    caps: Seq<Capability>,
    max: nat,
    is_tls: bool,
)
    ensures
        match spec_transition(state, cmd, caps, max, is_tls) {
            Ok((post, flow)) => flow is UpgradeTls ==> state is EhloReceived && cmd is StartTls
                && spec_has_capability(caps, Capability::StartTls) && post is Initial,
            Err(_) => true,
        },
{
}

/// Law: a refused command always carries the hint of the state that
/// refused it, and by [`State::handle_command`]'s contract the state is
/// unchanged, so the session stays alive and recoverable.
pub proof fn lemma_refusal_names_expected(
    state: StateModel,
    cmd: ParsedCommand,
    caps: Seq<Capability>,
    max: nat,
    is_tls: bool,
)
    ensures
        match spec_transition(state, cmd, caps, max, is_tls) {
            Err(hint) => hint == spec_expected(state),
            Ok(_) => true,
        },
{
}

/// No transition produces the delivery action itself: a message reaches
/// delivery only through the body accumulator.
pub proof fn lemma_transition_no_email_received(
    state: StateModel,
    cmd: ParsedCommand,
    caps: Seq<Capability>,
    max: nat,
    is_tls: bool,
)
    ensures
        match spec_transition(state, cmd, caps, max, is_tls) {
            Ok((post, flow)) => !(flow is EmailReceived),
            Err(_) => true,
        },
{
}

/// Law: `QUIT` is honoured in every state; it always transitions to
/// `Initial` and always produces the quit action.
pub proof fn lemma_quit_from_any_state(
    state: StateModel,
    caps: Seq<Capability>,
    max: nat,
    is_tls: bool,
)
    ensures
        spec_transition(state, ParsedCommand::Quit, caps, max, is_tls) == Ok::<
            (StateModel, FlowModel),
            Seq<char>,
        >((StateModel::Initial, FlowModel::Quit)),
{
}

proof fn lemma_udec_len(n: nat)
    ensures
        crate::text::spec_udec(n).len() >= 1,
    decreases n,
{
    if n >= 10 {
        lemma_udec_len(n / 10);
    }
}

proof fn lemma_cap_lines_no_starttls(caps: Seq<Capability>, max: nat)
    ensures
        forall|i: int|
            0 <= i < spec_cap_lines(caps, max, true).len() ==> spec_cap_lines(caps, max, true)[i]
                != "STARTTLS"@,
    decreases caps.len(),
{
    reveal_strlit("SIZE ");
    reveal_strlit("SMTPUTF8");
    reveal_strlit("STARTTLS");
    if caps.len() > 0 {
        lemma_cap_lines_no_starttls(caps.drop_first(), max);
        let head = spec_cap_line(caps.first(), max, true);
        let tail = spec_cap_lines(caps.drop_first(), max, true);
        assert(spec_cap_lines(caps, max, true) == head + tail);
        match caps.first() {
            Capability::Size => {
                lemma_udec_len(max);
                assert(("SIZE "@ + crate::text::spec_udec(max))[1] == 'I');
                assert("STARTTLS"@[1] == 'T');
                assert(head[0] != "STARTTLS"@);
            },
            Capability::StartTls => {
                assert(head.len() == 0);
            },
            Capability::SmtpUtf8 => {
                assert("SMTPUTF8"@[1] == 'M');
                assert("STARTTLS"@[1] == 'T');
                assert(head[0] != "STARTTLS"@);
            },
        }
        assert forall|i: int| 0 <= i < spec_cap_lines(caps, max, true).len() implies
            spec_cap_lines(caps, max, true)[i] != "STARTTLS"@ by {
            if i >= head.len() {
                assert(spec_cap_lines(caps, max, true)[i] == tail[i - head.len()]);
            }
        }
    }
}

/// Law: the EHLO reply of a session that already runs over TLS never
/// lists the `STARTTLS` capability, whatever the configuration advertises.
pub proof fn lemma_ehlo_over_tls_omits_starttls(host: Seq<char>, caps: Seq<Capability>, max: nat)
    ensures
        forall|i: int|
            0 <= i < spec_ehlo_lines(host, caps, max, true).len() ==> spec_ehlo_lines(
                host,
                caps,
                max,
                true,
            )[i] != "STARTTLS"@,
{
    reveal_strlit(", nice to meet you!");
    reveal_strlit("STARTTLS");
    let lines = spec_ehlo_lines(host, caps, max, true);
    assert(lines[0] == host + ", nice to meet you!"@);
    assert(lines[0].len() >= 19);
    assert("STARTTLS"@.len() == 8);
    lemma_cap_lines_no_starttls(caps, max);
    assert forall|i: int| 0 <= i < lines.len() implies lines[i] != "STARTTLS"@ by {
        if i >= 1 {
            assert(lines[i] == spec_cap_lines(caps, max, true)[i - 1]);
        }
    }
}

impl State {
    /// Feed one command through the state machine. On success the session
    /// moves to the next state and the returned action is owed to the
    /// client; on refusal the state is unchanged and the error carries
    /// the current state's hint. The outcome is exactly what
    /// [`spec_transition`] assigns; in particular the session only enters
    /// body accumulation through `Data` issued in `RecipientReceived`,
    /// with the envelope carried over and an empty body.
    pub fn handle_command(&mut self, command: Command, config: &Config, is_tls: bool) -> (r:
        Result<Flow, Error>)
        requires
            old(self)@ is ReceivingBody ==> (command@ is Quit || command@ is Reset),
        ensures
            match r {
                Ok(flow) => spec_transition(
                    old(self)@,
                    command@,
                    config.capabilities@,
                    config.max_receive_length as nat,
                    is_tls,
                ) == Ok::<(StateModel, FlowModel), Seq<char>>((final(self)@, flow@)),
                Err(e) => spec_transition(
                    old(self)@,
                    command@,
                    config.capabilities@,
                    config.max_receive_length as nat,
                    is_tls,
                ) == Err::<(StateModel, FlowModel), Seq<char>>(e@) && *final(self) == *old(self)
                    && e@ == spec_expected(old(self)@),
            },
            match final(self)@ {
                StateModel::ReceivingBody { sender, recipient, body } => old(self)@
                    == StateModel::RecipientReceived { sender, recipient } && command@ is Data
                    && body == Seq::<u8>::empty(),
                _ => true,
            },
    {
        let ghost pre = self@;
        let ghost cmdv = command@;
        let r = match Self::handle_command_impl(&*self, command, config, is_tls) {
            Ok((new_state, flow)) => {
                *self = new_state;
                Ok(flow)
            },
            Err(e) => Err(e),
        };
        proof {
            lemma_receiving_body_only_from_data(
                pre,
                cmdv,
                config.capabilities@,
                config.max_receive_length as nat,
                is_tls,
            );
            lemma_refusal_names_expected(
                pre,
                cmdv,
                config.capabilities@,
                config.max_receive_length as nat,
                is_tls,
            );
        }
        r
    }

    /// The pure core of [`State::handle_command`]: compute the next state
    /// and action without touching the current state.
    fn handle_command_impl(state: &State, command: Command, config: &Config, is_tls: bool) -> (r:
        Result<(State, Flow), Error>)
        requires
            state@ is ReceivingBody ==> (command@ is Quit || command@ is Reset),
        ensures
            match r {
                Ok((post, flow)) => spec_transition(
                    state@,
                    command@,
                    config.capabilities@,
                    config.max_receive_length as nat,
                    is_tls,
                ) == Ok::<(StateModel, FlowModel), Seq<char>>((post@, flow@)),
                Err(e) => spec_transition(
                    state@,
                    command@,
                    config.capabilities@,
                    config.max_receive_length as nat,
                    is_tls,
                ) == Err::<(StateModel, FlowModel), Seq<char>>(e@),
            },
    {
        match (state, command) {
            (State::Initial, Command::Ehlo { host }) => {
                let lines: Vec<String> = Self::ehlo_lines(&host, config, is_tls);
                Ok((State::EhloReceived, Flow::ReplyMultiline(Flow::status_ok(), lines)))
            },
            (State::EhloReceived, Command::MailFrom { address, .. }) => Ok(
                (
                    State::SenderReceived { sender: address },
                    Flow::Reply(Flow::status_ok(), "Tell them I said hi".to_owned()),
                ),
            ),
            (State::SenderReceived { sender }, Command::RecipientTo { address }) => Ok(
                (
                    State::RecipientReceived { sender: sender.clone(), recipient: address },
                    Flow::Reply(
                        Flow::status_ok(),
                        "I'll make sure to get this to them".to_owned(),
                    ),
                ),
            ),
            (State::RecipientReceived { sender, recipient }, Command::Data) => Ok(
                (
                    State::ReceivingBody {
                        sender: sender.clone(),
                        recipient: recipient.clone(),
                        body: Vec::new(),
                    },
                    Flow::Reply(
                        Flow::status_body_started(),
                        "Go ahead, I'm listening (end with \\r\\n.\\r\\n)".to_owned(),
                    ),
                ),
            ),
            (State::Done, Command::Reset) => Ok(
                (
                    State::EhloReceived,
                    Flow::Reply(Flow::status_ok(), "We're ready to go another round!".to_owned()),
                ),
            ),
            (_, Command::Quit) => Ok((State::Initial, Flow::Quit)),
            (_, Command::Reset) => Ok(
                (
                    State::EhloReceived,
                    Flow::Reply(Flow::status_ok(), "I'm sorry, who are you again?".to_owned()),
                ),
            ),
            (State::EhloReceived, Command::StartTls) => {
                if config.has_capability(&Capability::StartTls) {
                    Ok((State::Initial, Flow::UpgradeTls))
                } else {
                    Err(Error::UnknownCommand { expected: state.expected() })
                }
            },
            (st, _) => Err(Error::UnknownCommand { expected: st.expected() }),
        }
    }

    /// Build the EHLO reply lines for `host` under this configuration.
    fn ehlo_lines(host: &String, config: &Config, is_tls: bool) -> (r: Vec<String>)
        ensures
            lines_view(r@) == spec_ehlo_lines(
                host@,
                config.capabilities@,
                config.max_receive_length as nat,
                is_tls,
            ),
    {
        let ghost max = config.max_receive_length as nat;
        let ghost caps = config.capabilities@;
        let mut result: Vec<String> = Vec::new();
        result.push(host.clone().concat(", nice to meet you!"));
        proof {
            assert(lines_view(result@) =~= seq![host@ + ", nice to meet you!"@]);
        }
        let n: usize = config.capabilities.len();
        let mut i: usize = 0;
        while i < n
            invariant
                0 <= i <= n,
                n == caps.len(),
                caps == config.capabilities@,
                max == config.max_receive_length as nat,
                lines_view(result@) == seq![host@ + ", nice to meet you!"@] + spec_cap_lines(
                    caps.take(i as int),
                    max,
                    is_tls,
                ),
            decreases n - i,
        {
            let c: Capability = config.capabilities[i];
            let ghost before = lines_view(result@);
            if !(is_tls && c == Capability::StartTls) {
                result.push(c.to_tag(config));
                proof {
                    assert(lines_view(result@) =~= before + seq![spec_capability_tag(c, max)]);
                }
            }
            proof {
                lemma_cap_lines_take_snoc(caps, max, is_tls, i as int);
                assert(lines_view(result@) =~= seq![host@ + ", nice to meet you!"@]
                    + spec_cap_lines(caps.take(i as int + 1), max, is_tls));
            }
            i += 1;
        }
        proof {
            assert(caps.take(n as int) =~= caps);
        }
        result
    }

    /// The hint for the command the current state expects next. The body
    /// accumulation state expects raw bytes, not a command, so it has no
    /// hint.
    pub fn expected(&self) -> (r: &'static str)
        requires
            !(self@ is ReceivingBody),
        ensures
            r@ == spec_expected(self@),
    {
        match self {
            State::Initial => "EHLO",
            State::EhloReceived => "MAIL FROM",
            State::SenderReceived { .. } => "RCPT TO",
            State::RecipientReceived { .. } => "BODY",
            State::ReceivingBody { .. } => "",
            State::Done => "QUIT or RSET",
        }
    }
}

proof fn lemma_cap_lines_take_snoc(caps: Seq<Capability>, max: nat, is_tls: bool, i: int)
    requires
        0 <= i < caps.len(),
    ensures
        spec_cap_lines(caps.take(i + 1), max, is_tls) == spec_cap_lines(caps.take(i), max, is_tls)
            + spec_cap_line(caps[i], max, is_tls),
    decreases i,
{
    if i == 0 {
        assert(caps.take(0) =~= Seq::<Capability>::empty());
        let t1 = caps.take(1);
        assert(t1.len() == 1 && t1.first() == caps[0]);
        assert(t1.drop_first() =~= Seq::<Capability>::empty());
        assert(spec_cap_lines(t1, max, is_tls) == spec_cap_line(caps[0], max, is_tls)
            + spec_cap_lines(Seq::<Capability>::empty(), max, is_tls));
        assert(spec_cap_lines(t1, max, is_tls) =~= spec_cap_lines(caps.take(0), max, is_tls)
            + spec_cap_line(caps[0], max, is_tls));
    } else {
        let rest = caps.drop_first();
        lemma_cap_lines_take_snoc(rest, max, is_tls, i - 1);
        let a = caps.take(i + 1);
        let b = caps.take(i);
        assert(a.first() == caps[0] && b.first() == caps[0]);
        assert(a.drop_first() =~= rest.take(i));
        assert(b.drop_first() =~= rest.take(i - 1));
        assert(rest[i - 1] == caps[i]);
        assert(spec_cap_lines(a, max, is_tls) == spec_cap_line(caps[0], max, is_tls)
            + spec_cap_lines(rest.take(i), max, is_tls));
        assert(spec_cap_lines(b, max, is_tls) == spec_cap_line(caps[0], max, is_tls)
            + spec_cap_lines(rest.take(i - 1), max, is_tls));
        assert(spec_cap_line(caps[0], max, is_tls) + (spec_cap_lines(rest.take(i - 1), max, is_tls)
            + spec_cap_line(caps[i], max, is_tls)) =~= (spec_cap_line(caps[0], max, is_tls)
            + spec_cap_lines(rest.take(i - 1), max, is_tls)) + spec_cap_line(caps[i], max, is_tls));
    }
}

} // verus!
