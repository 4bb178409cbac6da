//! The line-based session engine: a mutable session record driven by one
//! reply per input line. It dispatches on the first four characters of a
//! command, collects sender, recipients and body, and answers with
//! complete reply lines.

use vstd::prelude::*;
use vstd::string::StrSliceExecFns;
use vstd::string::StringExecFns;

use vstd::utf8::encode_utf8;

use crate::flow::lines_view;
use crate::message_parser::{spec_find_any, MessageParser};
use crate::text::{
    lemma_encode_trim_le, lemma_encode_utf8_concat, lemma_encode_utf8_skip_le, range_eq_ci,
    seq_eq_ci, spec_trim, spec_udec, trim_str, usize_to_string,
};

verus! {

/// An optional feature of the line-based engine, advertised in its EHLO
/// reply.
#[derive(Clone, PartialEq, Eq, Hash, Debug)]
pub enum ConfigFeature {
    /// Authentication, advertised with the given mechanism list.
    Auth(String),
    /// The in-band TLS upgrade.
    Tls,
}

/// The mathematical model of a [`ConfigFeature`].
pub enum FeatureModel {
    Auth(Seq<char>),
    Tls,
}

impl View for ConfigFeature {
    type V = FeatureModel;

    open spec fn view(&self) -> FeatureModel {
        match self {
            ConfigFeature::Auth(s) => FeatureModel::Auth(s@),
            ConfigFeature::Tls => FeatureModel::Tls,
        }
    }
}

/// The tag line a feature contributes to the EHLO reply.
pub open spec fn spec_feature_tag(f: FeatureModel) -> Seq<char> {
    match f {
        FeatureModel::Auth(s) => "AUTH "@ + s,
        FeatureModel::Tls => "STARTTLS"@,
    }
}

impl ConfigFeature {
    /// The tag line this feature contributes to the EHLO reply, when it
    /// has one.
    pub fn as_ehlo_tag(&self) -> (r: Option<String>)
        ensures
            r matches Some(s) && s@ == spec_feature_tag(self@),
    {
        match self {
            ConfigFeature::Auth(s) => Some(String::from_str("AUTH ").concat(s.as_str())),
            ConfigFeature::Tls => Some("STARTTLS".to_owned()),
        }
    }
}

/// The views of a sequence of features.
pub open spec fn features_view(v: Seq<ConfigFeature>) -> Seq<FeatureModel> {
    v.map_values(|f: ConfigFeature| f@)
}

/// The line-based engine's configuration: the host named in the
/// greeting, the byte bound on bodies and recipient lists, and the
/// advertised features.
#[derive(Clone, Debug)]
pub struct Config {
    pub host: String,
    pub max_size: usize,
    pub features: Vec<ConfigFeature>,
}

impl Config {
    /// Start building a configuration for `host`; the size bound
    /// defaults to four megabytes.
    pub fn build(host: String) -> (r: ConfigBuilder)
        ensures
            r.host == host,
            r.max_size == 4194304,
            r.features@ == Seq::<ConfigFeature>::empty(),
    {
        ConfigBuilder { host, max_size: 4 * 1024 * 1024, features: Vec::new() }
    }
}

/// Builds a [`Config`] for the line-based engine.
pub struct ConfigBuilder {
    pub host: String,
    pub max_size: usize,
    pub features: Vec<ConfigFeature>,
}

impl Default for ConfigBuilder {
    fn default() -> (r: Self)
        ensures
            r.host@ == Seq::<char>::empty(),
            r.max_size == 0,
            r.features@ == Seq::<ConfigFeature>::empty(),
    {
        ConfigBuilder { host: String::new(), max_size: 0, features: Vec::new() }
    }
}

impl ConfigBuilder {
    /// Bound bodies and recipient lists by a size in kibibytes.
    pub fn max_message_size_kb(self, max_size_kb: usize) -> (r: Self)
        requires
            max_size_kb * 1024 <= usize::MAX,
        ensures
            r.max_size == max_size_kb * 1024,
            r.host == self.host,
            r.features == self.features,
    {
        let ConfigBuilder { host, max_size: _, features } = self;
        ConfigBuilder { host, max_size: max_size_kb * 1024, features }
    }

    /// Bound bodies and recipient lists by a size in mebibytes.
    pub fn max_message_size_mb(self, max_size_mb: usize) -> (r: Self)
        requires
            max_size_mb * 1048576 <= usize::MAX,
        ensures
            r.max_size == max_size_mb * 1048576,
            r.host == self.host,
            r.features == self.features,
    {
        let ConfigBuilder { host, max_size: _, features } = self;
        ConfigBuilder { host, max_size: max_size_mb * (1024 * 1024), features }
    }

    /// The finished configuration.
    pub fn build(self) -> (r: Config)
        ensures
            r.host == self.host,
            r.max_size == self.max_size,
            r.features == self.features,
    {
        let ConfigBuilder { host, max_size, features } = self;
        Config { host, max_size, features }
    }
}

/// One session of the line-based engine: the envelope collected so far,
/// the body under accumulation, and where the session stands.
#[derive(Debug)]
pub struct State {
    pub from: String,
    pub recipient: Vec<String>,
    pub body: String,
    pub ehlo_received: bool,
    pub is_reading_body: bool,
}

/// The mathematical model of a session record.
pub struct SessionView {
    pub from: Seq<char>,
    pub recipient: Seq<Seq<char>>,
    pub body: Seq<char>,
    pub ehlo_received: bool,
    pub is_reading_body: bool,
}

impl View for State {
    type V = SessionView;

    open spec fn view(&self) -> SessionView {
        SessionView {
            from: self.from@,
            recipient: lines_view(self.recipient@),
            body: self.body@,
            ehlo_received: self.ehlo_received,
            is_reading_body: self.is_reading_body,
        }
    }
}

/// The model of a fresh session.
pub open spec fn spec_fresh_session() -> SessionView {
    SessionView {
        from: Seq::empty(),
        recipient: Seq::empty(),
        body: Seq::empty(),
        ehlo_received: false,
        is_reading_body: false,
    }
}

impl Default for State {
    fn default() -> (r: Self)
        ensures
            r@ == spec_fresh_session(),
    {
        let r = State {
            from: String::new(),
            recipient: Vec::new(),
            body: String::new(),
            ehlo_received: false,
            is_reading_body: false,
        };
        proof {
            assert(lines_view(r.recipient@) =~= Seq::<Seq<char>>::empty());
        }
        r
    }
}

/// What a line makes the engine answer.
#[derive(Debug)]
pub enum LineResponse {
    Silent,
    ReplyWith(String),
    ReplyWithMultiple(Vec<String>),
    Upgrade,
    Done,
    Quit,
}

/// The mathematical model of a [`LineResponse`].
pub enum LineResponseModel {
    Silent,
    ReplyWith(Seq<char>),
    ReplyWithMultiple(Seq<Seq<char>>),
    Upgrade,
    Done,
    Quit,
}

impl View for LineResponse {
    type V = LineResponseModel;

    open spec fn view(&self) -> LineResponseModel {
        match self {
            LineResponse::Silent => LineResponseModel::Silent,
            LineResponse::ReplyWith(s) => LineResponseModel::ReplyWith(s@),
            LineResponse::ReplyWithMultiple(v) => LineResponseModel::ReplyWithMultiple(
                lines_view(v@),
            ),
            LineResponse::Upgrade => LineResponseModel::Upgrade,
            LineResponse::Done => LineResponseModel::Done,
            LineResponse::Quit => LineResponseModel::Quit,
        }
    }
}

/// The tag lines of the advertised features, in configuration order.
pub open spec fn spec_feature_lines(feats: Seq<FeatureModel>) -> Seq<Seq<char>>
    decreases feats.len(),
{
    if feats.len() == 0 {
        Seq::empty()
    } else {
        seq![spec_feature_tag(feats.first())] + spec_feature_lines(feats.drop_first())
    }
}

/// The capability texts of the EHLO reply: the greeting, the size bound,
/// and one line per feature.
pub open spec fn spec_ehlo_cmds(max: nat, feats: Seq<FeatureModel>) -> Seq<Seq<char>> {
    seq!["localhost, I'm glad to meet you"@, "SIZE "@ + spec_udec(max)] + spec_feature_lines(
        feats,
    )
}

/// The numbered reply lines: `250-` joins every text but the last, which
/// `250 ` joins, as continuation syntax demands.
pub open spec fn spec_ehlo_responses(cmds: Seq<Seq<char>>) -> Seq<Seq<char>>
    decreases cmds.len(),
{
    if cmds.len() == 0 {
        Seq::empty()
    } else if cmds.len() == 1 {
        seq!["250 "@ + cmds[0]]
    } else {
        seq!["250-"@ + cmds[0]] + spec_ehlo_responses(cmds.drop_first())
    }
}

/// The total length, in UTF-8 bytes, of the collected recipients.
pub open spec fn spec_total_bytes(rs: Seq<Seq<char>>) -> int
    decreases rs.len(),
{
    if rs.len() == 0 {
        0
    } else {
        encode_utf8(rs.first()).len() + spec_total_bytes(rs.drop_first())
    }
}

proof fn lemma_total_bytes_nonneg(rs: Seq<Seq<char>>)
    ensures
        spec_total_bytes(rs) >= 0,
    decreases rs.len(),
{
    if rs.len() > 0 {
        lemma_total_bytes_nonneg(rs.drop_first());
    }
}

/// What the EHLO handler does: record that the client introduced itself
/// and answer with the numbered capability lines.
pub open spec fn spec_handle_ehlo(pre: SessionView, max: nat, feats: Seq<FeatureModel>) -> (
    SessionView,
    LineResponseModel,
) {
    (
        SessionView { ehlo_received: true, ..pre },
        LineResponseModel::ReplyWithMultiple(spec_ehlo_responses(spec_ehlo_cmds(max, feats))),
    )
}

/// What the MAIL handler does with the line's part after the verb.
pub open spec fn spec_handle_mail(pre: SessionView, rest: Seq<char>) -> (
    SessionView,
    LineResponseModel,
) {
    if !pre.ehlo_received {
        (
            pre,
            LineResponseModel::ReplyWith(
                "500 Aren't you supposed to introduce yourself? (Send EHLO)"@,
            ),
        )
    } else {
        match spec_find_any(rest, seq![58u8]) {
            Some(i) => if seq_eq_ci(rest.take(i), "from"@) {
                let sender = spec_trim(rest.skip(i + 1));
                (
                    SessionView { from: sender, ..pre },
                    LineResponseModel::ReplyWith("250 Say hi to "@ + sender + " for me"@),
                )
            } else {
                (pre, LineResponseModel::ReplyWith("500 Expected FROM after MAIL"@))
            },
            None => (pre, LineResponseModel::ReplyWith("500 Expected FROM after MAIL"@)),
        }
    }
}

/// What the RCPT handler does with the line's part after the verb: a new
/// recipient joins the list unless the list outgrows the size bound, in
/// which case the list is cleared.
pub open spec fn spec_handle_recipient(pre: SessionView, rest: Seq<char>, max: nat) -> (
    SessionView,
    LineResponseModel,
) {
    if !pre.ehlo_received {
        (
            pre,
            LineResponseModel::ReplyWith(
                "500 Aren't you supposed to introduce yourself? (Send EHLO)"@,
            ),
        )
    } else {
        match spec_find_any(rest, seq![58u8]) {
            Some(i) => if seq_eq_ci(rest.take(i), "to"@) {
                let recipient = spec_trim(rest.skip(i + 1));
                let grown = pre.recipient.push(recipient);
                if spec_total_bytes(grown) > max {
                    (
                        SessionView { recipient: Seq::empty(), ..pre },
                        LineResponseModel::ReplyWith("500 You're sending too much"@),
                    )
                } else {
                    (
                        SessionView { recipient: grown, ..pre },
                        LineResponseModel::ReplyWith("250 I'll let them know"@),
                    )
                }
            } else {
                (pre, LineResponseModel::ReplyWith("500 Expected TO after RCPT"@))
            },
            None => (pre, LineResponseModel::ReplyWith("500 Expected TO after RCPT"@)),
        }
    }
}

/// What one body line does: the bare dot finishes the body, anything
/// else joins it with its CRLF restored, and a body outgrowing the size
/// bound is dropped with an error reply.
pub open spec fn spec_body_line(pre: SessionView, msg: Seq<char>, max: nat) -> (
    SessionView,
    LineResponseModel,
) {
    if msg == "."@ {
        (SessionView { is_reading_body: false, ..pre }, LineResponseModel::Done)
    } else {
        let nb = pre.body + msg + "\r\n"@;
        if encode_utf8(nb).len() >= max {
            (
                SessionView { body: Seq::empty(), ..pre },
                LineResponseModel::ReplyWith("500 Slow it down, you're sending too much"@),
            )
        } else {
            (SessionView { body: nb, ..pre }, LineResponseModel::Silent)
        }
    }
}

/// `Tls` occurs among the features.
pub open spec fn spec_has_tls(feats: Seq<FeatureModel>) -> bool {
    exists|i: int| 0 <= i < feats.len() && feats[i] is Tls
}

/// What one input line makes of the whole session: body accumulation
/// while a body is open; otherwise `STARTTLS` when advertised, then the
/// four-character dispatch; anything else is refused politely.
pub open spec fn spec_message_received(
    pre: SessionView,
    msg: Seq<char>,
    max: nat,
    feats: Seq<FeatureModel>,
) -> (SessionView, LineResponseModel) {
    if pre.is_reading_body {
        spec_body_line(pre, msg, max)
    } else if msg.len() >= 8 && seq_eq_ci(msg.take(8), "starttls"@) && spec_has_tls(feats) {
        (pre, LineResponseModel::Upgrade)
    } else if msg.len() >= 4 {
        let rest = spec_trim(msg.skip(4));
        if seq_eq_ci(msg.take(4), "ehlo"@) {
            spec_handle_ehlo(pre, max, feats)
        } else if seq_eq_ci(msg.take(4), "mail"@) {
            spec_handle_mail(pre, rest)
        } else if seq_eq_ci(msg.take(4), "rcpt"@) {
            spec_handle_recipient(pre, rest, max)
        } else if seq_eq_ci(msg.take(4), "data"@) {
            (
                SessionView { is_reading_body: true, ..pre },
                LineResponseModel::ReplyWith(
                    "354 Go on, I'm listening... (end with \\r\\n.\\r\\n)"@,
                ),
            )
        } else if seq_eq_ci(msg.take(4), "rset"@) {
            (spec_fresh_session(), LineResponseModel::ReplyWith("200 It's all gone"@))
        } else if seq_eq_ci(msg.take(4), "quit"@) {
            (pre, LineResponseModel::Quit)
        } else if seq_eq_ci(msg.take(4), "size"@) || seq_eq_ci(msg.take(4), "vrfy"@) || seq_eq_ci(
            msg.take(4),
            "turn"@,
        ) || seq_eq_ci(msg.take(4), "auth"@) || seq_eq_ci(msg.take(4), "expn"@) || seq_eq_ci(
            msg.take(4),
            "help"@,
        ) {
            (pre, LineResponseModel::ReplyWith("500 Not implemented"@))
        } else {
            (pre, LineResponseModel::ReplyWith("500 Unknown command"@))
        }
    } else {
        (pre, LineResponseModel::ReplyWith("500 Unknown command"@))
    }
}

/// Record that the client introduced itself and build the numbered EHLO
/// reply lines.
pub fn handle_ehlo(state: &mut State, _parser: MessageParser, config: &Config) -> (r:
    LineResponse)
    ensures
        (final(state)@, r@) == spec_handle_ehlo(
            old(state)@,
            config.max_size as nat,
            features_view(config.features@),
        ),
{
    state.ehlo_received = true;
    let ghost feats = features_view(config.features@);
    let mut cmds: Vec<String> = Vec::new();
    cmds.push("localhost, I'm glad to meet you".to_owned());
    cmds.push(String::from_str("SIZE ").concat(usize_to_string(config.max_size).as_str()));
    proof {
        assert(lines_view(cmds@) =~= seq![
            "localhost, I'm glad to meet you"@,
            "SIZE "@ + spec_udec(config.max_size as nat),
        ]);
    }
    let ghost head = lines_view(cmds@);
    let n: usize = config.features.len();
    let mut i: usize = 0;
    proof {
        assert(feats.skip(0) =~= feats);
        assert(head + spec_feature_lines(feats) =~= lines_view(cmds@) + spec_feature_lines(
            feats.skip(0),
        ));
    }
    while i < n
        invariant
            0 <= i <= n,
            n == config.features@.len(),
            feats == features_view(config.features@),
            head + spec_feature_lines(feats) == lines_view(cmds@) + spec_feature_lines(
                feats.skip(i as int),
            ),
        decreases n - i,
    {
        let ghost before = lines_view(cmds@);
        match config.features[i].as_ehlo_tag() {
            Some(tag) => {
                cmds.push(tag);
                proof {
                    assert(feats[i as int] == config.features@[i as int]@);
                    assert(lines_view(cmds@) =~= before + seq![spec_feature_tag(feats[i as int])]);
                }
            },
            None => {
                proof {
                    assert(false);
                }
            },
        }
        proof {
            let suf = feats.skip(i as int);
            assert(suf.first() == feats[i as int]);
            assert(suf.drop_first() =~= feats.skip(i as int + 1));
            assert(before + (seq![spec_feature_tag(feats[i as int])] + spec_feature_lines(
                feats.skip(i as int + 1),
            )) =~= lines_view(cmds@) + spec_feature_lines(feats.skip(i as int + 1)));
        }
        i += 1;
    }
    proof {
        assert(feats.skip(n as int) =~= Seq::<FeatureModel>::empty());
        assert(lines_view(cmds@) + spec_feature_lines(feats.skip(n as int)) =~= lines_view(
            cmds@,
        ));
        assert(lines_view(cmds@) =~= spec_ehlo_cmds(config.max_size as nat, feats));
    }
    let ghost all_cmds = lines_view(cmds@);
    let m: usize = cmds.len();
    let mut responses: Vec<String> = Vec::new();
    let mut j: usize = 0;
    proof {
        assert(all_cmds.skip(0) =~= all_cmds);
        assert(lines_view(responses@) =~= Seq::<Seq<char>>::empty());
        assert(lines_view(responses@) + spec_ehlo_responses(all_cmds) =~= spec_ehlo_responses(
            all_cmds,
        ));
    }
    while j < m
        invariant
            0 <= j <= m,
            m == cmds@.len(),
            all_cmds == lines_view(cmds@),
            spec_ehlo_responses(all_cmds) == lines_view(responses@) + spec_ehlo_responses(
                all_cmds.skip(j as int),
            ),
        decreases m - j,
    {
        let ghost before = lines_view(responses@);
        let prefix: &str = if j + 1 == m {
            "250 "
        } else {
            "250-"
        };
        responses.push(String::from_str(prefix).concat(cmds[j].as_str()));
        proof {
            let suf = all_cmds.skip(j as int);
            assert(suf[0] == all_cmds[j as int]);
            assert(suf.drop_first() =~= all_cmds.skip(j as int + 1));
            if j + 1 == m {
                assert(suf.len() == 1);
                assert(lines_view(responses@) =~= before + seq!["250 "@ + all_cmds[j as int]]);
                assert(all_cmds.skip(j as int + 1) =~= Seq::<Seq<char>>::empty());
                assert(lines_view(responses@) + spec_ehlo_responses(all_cmds.skip(j as int + 1))
                    =~= lines_view(responses@));
            } else {
                assert(suf.len() > 1);
                assert(lines_view(responses@) =~= before + seq!["250-"@ + all_cmds[j as int]]);
                assert(before + (seq!["250-"@ + all_cmds[j as int]] + spec_ehlo_responses(
                    all_cmds.skip(j as int + 1),
                )) =~= lines_view(responses@) + spec_ehlo_responses(all_cmds.skip(j as int + 1)));
            }
        }
        j += 1;
    }
    proof {
        assert(all_cmds.skip(m as int) =~= Seq::<Seq<char>>::empty());
        assert(lines_view(responses@) + spec_ehlo_responses(all_cmds.skip(m as int))
            =~= lines_view(responses@));
    }
    LineResponse::ReplyWithMultiple(responses)
}

/// Whether the recipients' total byte length exceeds `max`.
fn total_exceeds(rs: &Vec<String>, max: usize) -> (r: bool)
    requires
        forall|k: int|
            0 <= k < rs@.len() ==> encode_utf8(#[trigger] rs@[k]@).len() <= usize::MAX,
    ensures
        r == (spec_total_bytes(lines_view(rs@)) > max),
{
    let ghost rv = lines_view(rs@);
    let n: usize = rs.len();
    let mut acc: usize = 0;
    let mut i: usize = 0;
    proof {
        assert(rv.skip(0) =~= rv);
    }
    while i < n
        invariant
            0 <= i <= n,
            n == rs@.len(),
            rv == lines_view(rs@),
            acc <= max,
            forall|k: int|
                0 <= k < rs@.len() ==> encode_utf8(#[trigger] rs@[k]@).len() <= usize::MAX,
            spec_total_bytes(rv) == acc + spec_total_bytes(rv.skip(i as int)),
        decreases n - i,
    {
        let l: usize = rs[i].as_str().len();
        proof {
            let suf = rv.skip(i as int);
            assert(suf.first() == rv[i as int]);
            assert(suf.drop_first() =~= rv.skip(i as int + 1));
            assert(rv[i as int] == rs@[i as int]@);
            assert(l == encode_utf8(rv[i as int]).len());
            lemma_total_bytes_nonneg(rv.skip(i as int + 1));
        }
        if l > max - acc {
            return true;
        }
        acc = acc + l;
        i += 1;
    }
    proof {
        assert(rv.skip(n as int) =~= Seq::<Seq<char>>::empty());
    }
    false
}

/// Record the sender named after `MAIL FROM:` and greet it, or explain
/// what was missing.
fn handle_mail(state: &mut State, parser: MessageParser, _config: &Config) -> (r: LineResponse)
    requires
        parser.wf(),
        parser.offset == 0,
    ensures
        (final(state)@, r@) == spec_handle_mail(old(state)@, parser.original@),
{
    proof {
        reveal_strlit("from");
    }
    let mut parser = parser;
    if !state.ehlo_received {
        return LineResponse::ReplyWith(
            "500 Aren't you supposed to introduce yourself? (Send EHLO)".to_owned(),
        );
    }
    proof {
        assert(parser.rem() =~= parser.original@);
    }
    match parser.consume_word_until(58) {
        Some(word) => {
            let wlen: usize = word.unicode_len();
            if wlen == 4 && range_eq_ci(word, 0, "from") {
                proof {
                    assert(word@.subrange(0, 4) =~= word@);
                }
                let sender: String = parser.remaining().to_owned();
                state.from = sender;
                let r = String::from_str("250 Say hi to ").concat(state.from.as_str()).concat(
                    " for me",
                );
                LineResponse::ReplyWith(r)
            } else {
                proof {
                    if wlen == 4 {
                        assert(word@.subrange(0, 4) =~= word@);
                    }
                }
                LineResponse::ReplyWith("500 Expected FROM after MAIL".to_owned())
            }
        },
        None => LineResponse::ReplyWith("500 Expected FROM after MAIL".to_owned()),
    }
}

/// Add the recipient named after `RCPT TO:` to the envelope, unless the
/// list outgrows the size bound.
fn handle_recipient(state: &mut State, parser: MessageParser, config: &Config) -> (r:
    LineResponse)
    requires
        parser.wf(),
        parser.offset == 0,
        forall|k: int|
            0 <= k < old(state)@.recipient.len() ==> encode_utf8(
                #[trigger] old(state)@.recipient[k],
            ).len() <= usize::MAX,
        encode_utf8(parser.original@).len() <= usize::MAX,
    ensures
        (final(state)@, r@) == spec_handle_recipient(
            old(state)@,
            parser.original@,
            config.max_size as nat,
        ),
{
    proof {
        reveal_strlit("to");
    }
    let mut parser = parser;
    if !state.ehlo_received {
        return LineResponse::ReplyWith(
            "500 Aren't you supposed to introduce yourself? (Send EHLO)".to_owned(),
        );
    }
    proof {
        assert(parser.rem() =~= parser.original@);
    }
    match parser.consume_word_until(58) {
        Some(word) => {
            let wlen: usize = word.unicode_len();
            if wlen == 2 && range_eq_ci(word, 0, "to") {
                proof {
                    assert(word@.subrange(0, 2) =~= word@);
                }
                let recipient: String = parser.remaining().to_owned();
                let ghost rview = recipient@;
                let ghost before = lines_view(state.recipient@);
                state.recipient.push(recipient);
                proof {
                    assert(lines_view(state.recipient@) =~= before.push(rview));
                    lemma_encode_utf8_skip_le(parser.original@, parser.offset as int);
                    lemma_encode_trim_le(parser.original@.skip(parser.offset as int));
                    assert(encode_utf8(rview).len() <= usize::MAX);
                    assert forall|k: int| 0 <= k < state.recipient@.len() implies encode_utf8(
                        #[trigger] state.recipient@[k]@,
                    ).len() <= usize::MAX by {
                        if k < state.recipient@.len() - 1 {
                            assert(state.recipient@[k]@ == old(state)@.recipient[k]);
                        } else {
                            assert(state.recipient@[k]@ == rview);
                        }
                    }
                }
                if total_exceeds(&state.recipient, config.max_size) {
                    state.recipient.clear();
                    proof {
                        assert(lines_view(state.recipient@) =~= Seq::<Seq<char>>::empty());
                    }
                    LineResponse::ReplyWith("500 You're sending too much".to_owned())
                } else {
                    LineResponse::ReplyWith("250 I'll let them know".to_owned())
                }
            } else {
                proof {
                    if wlen == 2 {
                        assert(word@.subrange(0, 2) =~= word@);
                    }
                }
                LineResponse::ReplyWith("500 Expected TO after RCPT".to_owned())
            }
        },
        None => LineResponse::ReplyWith("500 Expected TO after RCPT".to_owned()),
    }
}

fn handle_size(_state: &mut State, _parser: MessageParser, _config: &Config) -> (r: LineResponse)
    ensures
        *final(_state) == *old(_state),
        r@ == LineResponseModel::ReplyWith("500 Not implemented"@),
{
    LineResponse::ReplyWith("500 Not implemented".to_owned())
}

/// Open the body: every following line joins the body buffer until the
/// bare-dot line ends it.
pub fn handle_data(state: &mut State, _parser: MessageParser, _config: &Config) -> (r:
    LineResponse)
    ensures
        final(state).from == old(state).from,
        final(state).recipient == old(state).recipient,
        final(state).body == old(state).body,
        final(state).ehlo_received == old(state).ehlo_received,
        final(state).is_reading_body,
        r@ == LineResponseModel::ReplyWith("354 Go on, I'm listening... (end with \\r\\n.\\r\\n)"@),
{
    state.is_reading_body = true;
    LineResponse::ReplyWith("354 Go on, I'm listening... (end with \\r\\n.\\r\\n)".to_owned())
}

fn handle_verify(_state: &mut State, _parser: MessageParser, _config: &Config) -> (r:
    LineResponse)
    ensures
        *final(_state) == *old(_state),
        r@ == LineResponseModel::ReplyWith("500 Not implemented"@),
{
    LineResponse::ReplyWith("500 Not implemented".to_owned())
}

fn handle_turn(_state: &mut State, _parser: MessageParser, _config: &Config) -> (r: LineResponse)
    ensures
        *final(_state) == *old(_state),
        r@ == LineResponseModel::ReplyWith("500 Not implemented"@),
{
    LineResponse::ReplyWith("500 Not implemented".to_owned())
}

fn handle_auth(_state: &mut State, _parser: MessageParser, _config: &Config) -> (r: LineResponse)
    ensures
        *final(_state) == *old(_state),
        r@ == LineResponseModel::ReplyWith("500 Not implemented"@),
{
    LineResponse::ReplyWith("500 Not implemented".to_owned())
}

/// Forget the whole session and start over.
pub fn handle_reset(state: &mut State, _parser: MessageParser, _config: &Config) -> (r:
    LineResponse)
    ensures
        final(state)@ == spec_fresh_session(),
        r@ == LineResponseModel::ReplyWith("200 It's all gone"@),
{
    *state = State::default();
    LineResponse::ReplyWith("200 It's all gone".to_owned())
}

fn handle_expn(_state: &mut State, _parser: MessageParser, _config: &Config) -> (r: LineResponse)
    ensures
        *final(_state) == *old(_state),
        r@ == LineResponseModel::ReplyWith("500 Not implemented"@),
{
    LineResponse::ReplyWith("500 Not implemented".to_owned())
}

fn handle_help(_state: &mut State, _parser: MessageParser, _config: &Config) -> (r: LineResponse)
    ensures
        *final(_state) == *old(_state),
        r@ == LineResponseModel::ReplyWith("500 Not implemented"@),
{
    LineResponse::ReplyWith("500 Not implemented".to_owned())
}

/// Answer the quit command; the caller closes the connection.
pub fn handle_quit(_state: &mut State, _parser: MessageParser, _config: &Config) -> (r:
    LineResponse)
    ensures
        *final(_state) == *old(_state),
        r@ == LineResponseModel::Quit,
{
    LineResponse::Quit
}

/// Whether the TLS feature is advertised.
fn has_tls(config: &Config) -> (r: bool)
    ensures
        r == spec_has_tls(features_view(config.features@)),
{
    let ghost feats = features_view(config.features@);
    let n: usize = config.features.len();
    let mut i: usize = 0;
    while i < n
        invariant
            0 <= i <= n,
            n == config.features@.len(),
            feats == features_view(config.features@),
            forall|k: int| 0 <= k < i ==> !(feats[k] is Tls),
        decreases n - i,
    {
        if matches!(config.features[i], ConfigFeature::Tls) {
            proof {
                assert(feats[i as int] is Tls);
            }
            return true;
        }
        proof {
            assert(feats[i as int] == config.features@[i as int]@);
        }
        i += 1;
    }
    false
}

impl State {
    /// Drive the session with one input line; the result is exactly what
    /// [`spec_message_received`] assigns.
    pub fn message_received(&mut self, msg: &str, config: &Config) -> (r: LineResponse)
        requires
            old(self)@.is_reading_body ==> encode_utf8(old(self)@.body).len() + encode_utf8(
                msg@,
            ).len() + 2 <= usize::MAX,
            forall|k: int|
                0 <= k < old(self)@.recipient.len() ==> encode_utf8(
                    #[trigger] old(self)@.recipient[k],
                ).len() <= usize::MAX,
            encode_utf8(msg@).len() <= usize::MAX,
        ensures
            (final(self)@, r@) == spec_message_received(
                old(self)@,
                msg@,
                config.max_size as nat,
                features_view(config.features@),
            ),
    {
        proof {
            reveal_strlit(".");
            reveal_strlit("starttls");
            reveal_strlit("ehlo");
            reveal_strlit("mail");
            reveal_strlit("rcpt");
            reveal_strlit("data");
            reveal_strlit("rset");
            reveal_strlit("quit");
            reveal_strlit("size");
            reveal_strlit("vrfy");
            reveal_strlit("turn");
            reveal_strlit("auth");
            reveal_strlit("expn");
            reveal_strlit("help");
        }
        let n: usize = msg.unicode_len();
        if self.is_reading_body {
            if n == 1 && msg.get_char(0) == '.' {
                proof {
                    assert(msg@ =~= "."@);
                }
                self.is_reading_body = false;
                return LineResponse::Done;
            }
            proof {
                if msg@ == "."@ {
                    assert(msg@.len() == 1 && msg@[0] == '.');
                }
            }
            self.body.append(msg);
            self.body.append("\r\n");
            proof {
                reveal_strlit("\r\n");
                assert forall|i: int|
                    0 <= i < "\r\n"@.len() implies '\0' <= #[trigger] "\r\n"@[i]
                    <= '\u{7f}' by {
                    if i == 0 {
                        assert("\r\n"@[0] == '\r');
                    } else {
                        assert("\r\n"@[1] == '\n');
                    }
                }
                assert(vstd::utf8::is_ascii_chars("\r\n"@));
                vstd::utf8::is_ascii_chars_encode_utf8("\r\n"@);
                lemma_encode_utf8_concat(old(self)@.body + msg@, "\r\n"@);
                lemma_encode_utf8_concat(old(self)@.body, msg@);
            }
            if self.body.as_str().len() >= config.max_size {
                self.body = String::new();
                return LineResponse::ReplyWith(
                    "500 Slow it down, you're sending too much".to_owned(),
                );
            }
            return LineResponse::Silent;
        }
        if n >= 8 && range_eq_ci(msg, 0, "starttls") && has_tls(config) {
            proof {
                assert(msg@.subrange(0, 8) =~= msg@.take(8));
            }
            return LineResponse::Upgrade;
        }
        proof {
            if n >= 8 {
                assert(msg@.subrange(0, 8) =~= msg@.take(8));
            }
        }
        if n < 4 {
            return LineResponse::ReplyWith("500 Unknown command".to_owned());
        }
        proof {
            assert(msg@.subrange(0, 4) =~= msg@.take(4));
        }
        let tail: &str = trim_str(msg.substring_char(4, n));
        proof {
            assert(msg@.subrange(4, n as int) =~= msg@.skip(4));
        }
        let parser = MessageParser::new(tail);
        if range_eq_ci(msg, 0, "ehlo") {
            handle_ehlo(self, parser, config)
        } else if range_eq_ci(msg, 0, "mail") {
            handle_mail(self, parser, config)
        } else if range_eq_ci(msg, 0, "rcpt") {
            proof {
                lemma_encode_utf8_skip_le(msg@, 4);
                lemma_encode_trim_le(msg@.skip(4));
            }
            handle_recipient(self, parser, config)
        } else if range_eq_ci(msg, 0, "data") {
            handle_data(self, parser, config)
        } else if range_eq_ci(msg, 0, "rset") {
            handle_reset(self, parser, config)
        } else if range_eq_ci(msg, 0, "quit") {
            handle_quit(self, parser, config)
        } else if range_eq_ci(msg, 0, "size") {
            handle_size(self, parser, config)
        } else if range_eq_ci(msg, 0, "vrfy") {
            handle_verify(self, parser, config)
        } else if range_eq_ci(msg, 0, "turn") {
            handle_turn(self, parser, config)
        } else if range_eq_ci(msg, 0, "auth") {
            handle_auth(self, parser, config)
        } else if range_eq_ci(msg, 0, "expn") {
            handle_expn(self, parser, config)
        } else if range_eq_ci(msg, 0, "help") {
            handle_help(self, parser, config)
        } else {
            LineResponse::ReplyWith("500 Unknown command".to_owned())
        }
    }
}

/// The reply line the line-based engine owes once a collected message
/// was handed over: the handler's verdict decides between the
/// confirmation and an internal error.
pub fn delivery_line(collected_ok: bool) -> (r: String)
    ensures
        r@ == if collected_ok {
            "250 Ok: Message received, over"@
        } else {
            "500 Internal server error"@
        },
{
    if collected_ok {
        "250 Ok: Message received, over".to_owned()
    } else {
        "500 Internal server error".to_owned()
    }
}

} // verus!
