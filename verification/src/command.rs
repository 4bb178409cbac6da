//! The SMTP command parser: one input line, already stripped of its CRLF
//! terminator, is classified by its first four characters (ASCII
//! case-insensitive) into a typed command or a parse error.

use vstd::prelude::*;
use vstd::string::StrSliceExecFns;

use crate::text::{
    find_char, range_eq_ci, seq_eq_ci, spec_find, spec_split, spec_trim, trim_str,
};

verus! {

/// A parsed SMTP command.
#[derive(Debug)]
pub enum Command {
    Ehlo { host: String },
    MailFrom { address: String, headers: Vec<(String, String)> },
    RecipientTo { address: String },
    Data,
    Reset,
    Quit,
    StartTls,
}

/// Why a line could not be parsed into a [`Command`].
#[derive(Debug)]
pub enum ParserError {
    InputTooShort,
    UnknownSmtpCommand,
    InvalidSmtpCommand(&'static str),
    MissingFromAddress,
}

/// The mathematical model of a parsed command: every string field as a
/// character sequence.
pub enum ParsedCommand {
    Ehlo { host: Seq<char> },
    MailFrom { address: Seq<char>, headers: Seq<(Seq<char>, Seq<char>)> },
    RecipientTo { address: Seq<char> },
    Data,
    Reset,
    Quit,
    StartTls,
}

/// The mathematical model of a parse error.
pub enum ParseFailure {
    InputTooShort,
    UnknownSmtpCommand,
    InvalidSmtpCommand(Seq<char>),
    MissingFromAddress,
}

/// The views of a sequence of key/value string pairs.
pub open spec fn pairs_view(v: Seq<(String, String)>) -> Seq<(Seq<char>, Seq<char>)> {
    v.map_values(|p: (String, String)| (p.0@, p.1@))
}

impl View for Command {
    type V = ParsedCommand;

    open spec fn view(&self) -> ParsedCommand {
        match self {
            Command::Ehlo { host } => ParsedCommand::Ehlo { host: host@ },
            Command::MailFrom { address, headers } => ParsedCommand::MailFrom {
                address: address@,
                headers: pairs_view(headers@),
            },
            Command::RecipientTo { address } => ParsedCommand::RecipientTo { address: address@ },
            Command::Data => ParsedCommand::Data,
            Command::Reset => ParsedCommand::Reset,
            Command::Quit => ParsedCommand::Quit,
            Command::StartTls => ParsedCommand::StartTls,
        }
    }
}

impl View for ParserError {
    type V = ParseFailure;

    open spec fn view(&self) -> ParseFailure {
        match self {
            ParserError::InputTooShort => ParseFailure::InputTooShort,
            ParserError::UnknownSmtpCommand => ParseFailure::UnknownSmtpCommand,
            ParserError::InvalidSmtpCommand(m) => ParseFailure::InvalidSmtpCommand(m@),
            ParserError::MissingFromAddress => ParseFailure::MissingFromAddress,
        }
    }
}

/// The string both starts with `<` and ends with `>`.
pub open spec fn has_brackets(s: Seq<char>) -> bool {
    s.len() >= 2 && s.first() == '<' && s.last() == '>'
}

/// Remove one surrounding angle-bracket pair if and only if both brackets
/// are present; otherwise the string passes through unchanged.
pub open spec fn spec_trim_brackets(s: Seq<char>) -> Seq<char> {
    if has_brackets(s) {
        s.subrange(1, s.len() - 1)
    } else {
        s
    }
}

/// Law: bracket stripping is a no-op on inputs that do not carry both a
/// leading `<` and a trailing `>`.
pub proof fn lemma_trim_brackets_unbalanced_noop(s: Seq<char>)
    requires
        !has_brackets(s),
    ensures
        spec_trim_brackets(s) == s,
{
}

/// Law: bracket stripping is idempotent on inputs whose stripped form is
/// not itself bracketed again.
pub proof fn lemma_trim_brackets_idempotent(s: Seq<char>)
    requires
        !has_brackets(spec_trim_brackets(s)),
    ensures
        spec_trim_brackets(spec_trim_brackets(s)) == spec_trim_brackets(s),
{
}

/// Remove one surrounding angle-bracket pair if and only if both brackets
/// are present.
pub fn trim_brackets<'a>(s: &'a str) -> (r: &'a str)
    ensures
        r@ == spec_trim_brackets(s@),
{
    let n: usize = s.unicode_len();
    if n >= 2 && s.get_char(0) == '<' && s.get_char(n - 1) == '>' {
        s.substring_char(1, n - 1)
    } else {
        s
    }
}

/// The key/value pair a `k=v` token denotes: the text before the first `=`
/// and the text after it, or nothing when the token has no `=`.
pub open spec fn spec_header_pair(t: Seq<char>) -> Option<(Seq<char>, Seq<char>)> {
    match spec_find(t, '=') {
        Some(i) => Some((t.take(i), t.skip(i + 1))),
        None => None,
    }
}

/// Some later pair carries the same key.
pub open spec fn spec_key_recurs(pairs: Seq<(Seq<char>, Seq<char>)>, key: Seq<char>) -> bool {
    exists|j: int| 0 <= j < pairs.len() && pairs[j].0 == key
}

/// The headers form a map of name to value: of pairs sharing a key only
/// the last survives, at the position of its own occurrence.
pub open spec fn spec_dedup_keys(pairs: Seq<(Seq<char>, Seq<char>)>) -> Seq<
    (Seq<char>, Seq<char>),
>
    decreases pairs.len(),
{
    if pairs.len() == 0 {
        Seq::empty()
    } else if spec_key_recurs(pairs.drop_first(), pairs.first().0) {
        spec_dedup_keys(pairs.drop_first())
    } else {
        seq![pairs.first()] + spec_dedup_keys(pairs.drop_first())
    }
}

/// The key/value pairs of the tokens that contain a `=`, in token order.
pub open spec fn spec_header_pairs(tokens: Seq<Seq<char>>) -> Seq<(Seq<char>, Seq<char>)>
    decreases tokens.len(),
{
    if tokens.len() == 0 {
        Seq::empty()
    } else {
        match spec_header_pair(tokens.first()) {
            Some(p) => seq![p] + spec_header_pairs(tokens.drop_first()),
            None => spec_header_pairs(tokens.drop_first()),
        }
    }
}

/// What `MAIL` lines parse to, given the whole line `s` with a
/// case-insensitive `mail` prefix: the bracket-stripped first token of
/// the trimmed remainder is the address — an empty first token means the
/// address is missing — and the remaining `k=v` tokens form the headers.
pub open spec fn spec_parse_mail(s: Seq<char>) -> Result<ParsedCommand, ParseFailure> {
    if s.len() < 9 {
        Err(ParseFailure::InputTooShort)
    } else if !seq_eq_ci(s.subrange(5, 9), "from"@) {
        Err(ParseFailure::InvalidSmtpCommand("MAIL FROM command is missing required fragment FROM"@))
    } else if s.len() < 10 {
        Err(ParseFailure::InputTooShort)
    } else {
        let parts = spec_split(spec_trim(s.skip(10)), ' ');
        if parts[0].len() == 0 {
            Err(ParseFailure::MissingFromAddress)
        } else {
            Ok(ParsedCommand::MailFrom {
                address: spec_trim_brackets(parts[0]),
                headers: spec_dedup_keys(spec_header_pairs(parts.drop_first())),
            })
        }
    }
}

/// What `RCPT` lines parse to, given the whole line `s` with a
/// case-insensitive `rcpt` prefix.
pub open spec fn spec_parse_rcpt(s: Seq<char>) -> Result<ParsedCommand, ParseFailure> {
    if s.len() < 7 {
        Err(ParseFailure::InputTooShort)
    } else if !seq_eq_ci(s.subrange(5, 7), "to"@) {
        Err(ParseFailure::InvalidSmtpCommand("RCPT TO command is missing required fragment TO"@))
    } else if s.len() < 8 {
        Err(ParseFailure::InputTooShort)
    } else {
        Ok(ParsedCommand::RecipientTo { address: spec_trim_brackets(spec_trim(s.skip(8))) })
    }
}

/// What a command line parses to: classification is by the first four
/// characters, ASCII case-insensitive.
pub open spec fn spec_parse(s: Seq<char>) -> Result<ParsedCommand, ParseFailure> {
    if s.len() < 4 {
        Err(ParseFailure::InputTooShort)
    } else if seq_eq_ci(s.take(4), "ehlo"@) {
        Ok(ParsedCommand::Ehlo { host: spec_trim(s.skip(4)) })
    } else if seq_eq_ci(s.take(4), "mail"@) {
        spec_parse_mail(s)
    } else if seq_eq_ci(s.take(4), "rcpt"@) {
        spec_parse_rcpt(s)
    } else if seq_eq_ci(s.take(4), "data"@) {
        Ok(ParsedCommand::Data)
    } else if seq_eq_ci(s.take(4), "rset"@) {
        Ok(ParsedCommand::Reset)
    } else if seq_eq_ci(s.take(4), "quit"@) {
        Ok(ParsedCommand::Quit)
    } else if seq_eq_ci(s.take(4), "star"@) {
        if seq_eq_ci(spec_trim(s), "starttls"@) {
            Ok(ParsedCommand::StartTls)
        } else {
            Err(ParseFailure::UnknownSmtpCommand)
        }
    } else {
        Err(ParseFailure::UnknownSmtpCommand)
    }
}

proof fn lemma_header_pairs_cons(t: Seq<char>, rest: Seq<Seq<char>>)
    ensures
        spec_header_pairs(seq![t] + rest) == match spec_header_pair(t) {
            Some(p) => seq![p] + spec_header_pairs(rest),
            None => spec_header_pairs(rest),
        },
{
    let whole = seq![t] + rest;
    assert(whole.first() == t);
    assert(whole.drop_first() =~= rest);
}

/// Append the key/value pair a `k=v` token denotes, or nothing when the
/// token has no `=`.
fn push_pair(headers: &mut Vec<(String, String)>, token: &str)
    ensures
        pairs_view(final(headers)@) == match spec_header_pair(token@) {
            Some(p) => pairs_view(old(headers)@).push(p),
            None => pairs_view(old(headers)@),
        },
{
    let token_len: usize = token.unicode_len();
    match find_char(token, '=') {
        Some(j) => {
            let key: String = token.substring_char(0, j).to_owned();
            let value: String = token.substring_char(j + 1, token_len).to_owned();
            let ghost before = headers@;
            headers.push((key, value));
            proof {
                assert(key@ =~= token@.take(j as int));
                assert(value@ =~= token@.skip(j as int + 1));
                assert(pairs_view(headers@) =~= pairs_view(before).push((key@, value@)));
            }
        },
        None => {},
    }
}

/// Parse the `k=v` tokens that follow the address in a `MAIL` line.
/// `rest` is the part of the trimmed remainder that follows the first
/// space, when there is one.
fn parse_headers(rest: &str) -> (r: Vec<(String, String)>)
    ensures
        pairs_view(r@) == spec_header_pairs(spec_split(rest@, ' ')),
{
    let mut headers: Vec<(String, String)> = Vec::new();
    let mut cur: &str = rest;
    let ghost target = spec_header_pairs(spec_split(rest@, ' '));
    proof {
        assert(pairs_view(headers@) =~= Seq::<(Seq<char>, Seq<char>)>::empty());
        assert(pairs_view(headers@) + spec_header_pairs(spec_split(cur@, ' '))
            =~= spec_header_pairs(spec_split(cur@, ' ')));
    }
    loop
        invariant
            target == spec_header_pairs(spec_split(rest@, ' ')),
            target == pairs_view(headers@) + spec_header_pairs(spec_split(cur@, ' ')),
        decreases cur@.len(),
    {
        let cur_len: usize = cur.unicode_len();
        match find_char(cur, ' ') {
            Some(i) => {
                let token: &str = cur.substring_char(0, i);
                let tail: &str = cur.substring_char(i + 1, cur_len);
                let ghost before = pairs_view(headers@);
                proof {
                    assert(spec_split(cur@, ' ') == seq![cur@.take(i as int)] + spec_split(
                        cur@.skip(i as int + 1),
                        ' ',
                    ));
                    assert(token@ =~= cur@.take(i as int));
                    assert(tail@ =~= cur@.skip(i as int + 1));
                    lemma_header_pairs_cons(token@, spec_split(tail@, ' '));
                }
                push_pair(&mut headers, token);
                proof {
                    match spec_header_pair(token@) {
                        Some(p) => {
                            assert(before + (seq![p] + spec_header_pairs(spec_split(tail@, ' ')))
                                =~= before.push(p) + spec_header_pairs(spec_split(tail@, ' ')));
                        },
                        None => {},
                    }
                }
                cur = tail;
            },
            None => {
                proof {
                    assert(spec_split(cur@, ' ') == seq![cur@]);
                    assert(seq![cur@] =~= seq![cur@] + Seq::<Seq<char>>::empty());
                    lemma_header_pairs_cons(cur@, Seq::empty());
                    assert(spec_header_pairs(Seq::<Seq<char>>::empty()) =~= Seq::<(
                        Seq<char>,
                        Seq<char>,
                    )>::empty());
                }
                let ghost before = pairs_view(headers@);
                push_pair(&mut headers, cur);
                proof {
                    match spec_header_pair(cur@) {
                        Some(p) => {
                            assert(spec_header_pairs(spec_split(cur@, ' ')) =~= seq![p]);
                            assert(before + seq![p] =~= before.push(p));
                            assert(target =~= pairs_view(headers@));
                        },
                        None => {
                            assert(spec_header_pairs(spec_split(cur@, ' ')) =~= Seq::<(
                                Seq<char>,
                                Seq<char>,
                            )>::empty());
                            assert(target =~= pairs_view(headers@));
                        },
                    }
                }
                return headers;
            },
        }
    }
}

/// Keep, of pairs sharing a key, only the last, as a name-to-value map
/// does.
fn dedup_pairs(pairs: &Vec<(String, String)>) -> (r: Vec<(String, String)>)
    ensures
        pairs_view(r@) == spec_dedup_keys(pairs_view(pairs@)),
{
    let ghost pv = pairs_view(pairs@);
    let n: usize = pairs.len();
    let mut out: Vec<(String, String)> = Vec::new();
    let mut i: usize = 0;
    proof {
        assert(pv.skip(0) =~= pv);
        assert(pairs_view(out@) =~= Seq::<(Seq<char>, Seq<char>)>::empty());
        assert(pairs_view(out@) + spec_dedup_keys(pv) =~= spec_dedup_keys(pv));
    }
    while i < n
        invariant
            0 <= i <= n,
            n == pairs@.len(),
            pv == pairs_view(pairs@),
            spec_dedup_keys(pv) == pairs_view(out@) + spec_dedup_keys(pv.skip(i as int)),
        decreases n - i,
    {
        let mut recurs = false;
        let mut j: usize = i + 1;
        while j < n
            invariant
                0 <= i < n,
                i + 1 <= j <= n,
                n == pairs@.len(),
                pv == pairs_view(pairs@),
                recurs ==> exists|t: int| i < t < j && pv[t].0 == pv[i as int].0,
                !recurs ==> forall|t: int| i < t < j ==> pv[t].0 != pv[i as int].0,
            decreases n - j,
        {
            proof {
                assert(pv[j as int] == (pairs@[j as int].0@, pairs@[j as int].1@));
                assert(pv[i as int] == (pairs@[i as int].0@, pairs@[i as int].1@));
            }
            if pairs[j].0 == pairs[i].0 {
                recurs = true;
                proof {
                    assert(pv[j as int].0 == pv[i as int].0);
                }
            } else {
                proof {
                    assert(pv[j as int].0 != pv[i as int].0);
                }
            }
            j += 1;
        }
        let ghost suf = pv.skip(i as int);
        proof {
            assert(suf.first() == pv[i as int]);
            assert(suf.drop_first() =~= pv.skip(i as int + 1));
            if recurs {
                let t = choose|t: int| i < t < n && pv[t].0 == pv[i as int].0;
                assert(pv.skip(i as int + 1)[t - i - 1] == pv[t]);
                assert(spec_key_recurs(pv.skip(i as int + 1), pv[i as int].0));
            } else {
                if spec_key_recurs(pv.skip(i as int + 1), pv[i as int].0) {
                    let key = pv[i as int].0;
                    let j2 = choose|j2: int|
                        #![trigger pv.skip(i as int + 1)[j2]]
                        0 <= j2 < pv.skip(i as int + 1).len()
                            && pv.skip(i as int + 1)[j2].0 == key;
                    assert(pv.skip(i as int + 1)[j2] == pv[j2 + i + 1]);
                }
            }
        }
        if !recurs {
            let ghost before = pairs_view(out@);
            out.push((pairs[i].0.clone(), pairs[i].1.clone()));
            proof {
                assert(pairs_view(out@) =~= before.push(pv[i as int]));
                assert(before + (seq![pv[i as int]] + spec_dedup_keys(pv.skip(i as int + 1)))
                    =~= pairs_view(out@) + spec_dedup_keys(pv.skip(i as int + 1)));
            }
        }
        i += 1;
    }
    proof {
        assert(pv.skip(n as int) =~= Seq::<(Seq<char>, Seq<char>)>::empty());
        assert(pairs_view(out@) + spec_dedup_keys(pv.skip(n as int)) =~= pairs_view(out@));
    }
    out
}

impl Command {
    /// Classify one CRLF-less input line as a typed SMTP command, or report
    /// why it cannot be one. The result is exactly what [`spec_parse`]
    /// assigns to the line's characters.
    pub fn parse(line: &str) -> (r: Result<Command, ParserError>)
        ensures
            match r {
                Ok(c) => spec_parse(line@) == Ok::<ParsedCommand, ParseFailure>(c@),
                Err(e) => spec_parse(line@) == Err::<ParsedCommand, ParseFailure>(e@),
            },
    {
        proof {
            reveal_strlit("ehlo");
            reveal_strlit("mail");
            reveal_strlit("rcpt");
            reveal_strlit("data");
            reveal_strlit("rset");
            reveal_strlit("quit");
            reveal_strlit("star");
            reveal_strlit("from");
            reveal_strlit("to");
            reveal_strlit("starttls");
        }
        let n: usize = line.unicode_len();
        if n < 4 {
            return Err(ParserError::InputTooShort);
        }
        assert(line@.take(4) =~= line@.subrange(0, 4));
        if range_eq_ci(line, 0, "ehlo") {
            let host: String = trim_str(line.substring_char(4, n)).to_owned();
            assert(line@.subrange(4, n as int) =~= line@.skip(4));
            Ok(Command::Ehlo { host })
        } else if range_eq_ci(line, 0, "mail") {
            if n < 9 {
                return Err(ParserError::InputTooShort);
            }
            if !range_eq_ci(line, 5, "from") {
                return Err(ParserError::InvalidSmtpCommand(
                    "MAIL FROM command is missing required fragment FROM",
                ));
            }
            if n < 10 {
                return Err(ParserError::InputTooShort);
            }
            let rem: &str = trim_str(line.substring_char(10, n));
            assert(line@.subrange(10, n as int) =~= line@.skip(10));
            let ghost parts = spec_split(rem@, ' ');
            let rem_len: usize = rem.unicode_len();
            let (addr_token, rest): (&str, Option<&str>) = match find_char(rem, ' ') {
                Some(i) => (rem.substring_char(0, i), Some(rem.substring_char(i + 1, rem_len))),
                None => (rem, None),
            };
            proof {
                match spec_find(rem@, ' ') {
                    Some(i) => {
                        crate::text::lemma_spec_find(rem@, ' ');
                        assert(parts == seq![rem@.take(i)] + spec_split(rem@.skip(i + 1), ' '));
                        assert(parts[0] == rem@.take(i));
                        assert(parts.drop_first() =~= spec_split(rem@.skip(i + 1), ' '));
                    },
                    None => {
                        assert(parts == seq![rem@]);
                        assert(parts[0] == rem@);
                        assert(parts.drop_first() =~= Seq::<Seq<char>>::empty());
                        assert(spec_header_pairs(Seq::<Seq<char>>::empty()) =~= Seq::<(
                            Seq<char>,
                            Seq<char>,
                        )>::empty());
                    },
                }
            }
            if addr_token.unicode_len() == 0 {
                return Err(ParserError::MissingFromAddress);
            }
            let address: String = trim_brackets(addr_token).to_owned();
            let raw_headers: Vec<(String, String)> = match rest {
                Some(rest_str) => parse_headers(rest_str),
                None => {
                    let empty: Vec<(String, String)> = Vec::new();
                    proof {
                        assert(pairs_view(empty@) =~= Seq::<(Seq<char>, Seq<char>)>::empty());
                    }
                    empty
                },
            };
            let headers: Vec<(String, String)> = dedup_pairs(&raw_headers);
            Ok(Command::MailFrom { address, headers })
        } else if range_eq_ci(line, 0, "rcpt") {
            if n < 7 {
                return Err(ParserError::InputTooShort);
            }
            if !range_eq_ci(line, 5, "to") {
                return Err(ParserError::InvalidSmtpCommand(
                    "RCPT TO command is missing required fragment TO",
                ));
            }
            if n < 8 {
                return Err(ParserError::InputTooShort);
            }
            let address: String = trim_brackets(trim_str(line.substring_char(8, n))).to_owned();
            assert(line@.subrange(8, n as int) =~= line@.skip(8));
            Ok(Command::RecipientTo { address })
        } else if range_eq_ci(line, 0, "data") {
            Ok(Command::Data)
        } else if range_eq_ci(line, 0, "rset") {
            Ok(Command::Reset)
        } else if range_eq_ci(line, 0, "quit") {
            Ok(Command::Quit)
        } else if range_eq_ci(line, 0, "star") {
            let t: &str = trim_str(line);
            let t_len: usize = t.unicode_len();
            if t_len == 8 && range_eq_ci(t, 0, "starttls") {
                assert(t@.subrange(0, 8) =~= t@);
                Ok(Command::StartTls)
            } else {
                assert(!seq_eq_ci(spec_trim(line@), "starttls"@)) by {
                    if t_len == 8 {
                        assert(t@.subrange(0, 8) =~= t@);
                    }
                }
                Err(ParserError::UnknownSmtpCommand)
            }
        } else {
            Err(ParserError::UnknownSmtpCommand)
        }
    }
}

} // verus!
