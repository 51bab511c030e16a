use vstd::prelude::*;
use vstd::string::StrSliceExecFns;
use vstd::string::StringExecFns;

use crate::extern_calls::push_char;

verus! {

// ---------------------------------------------------------------------
// String escaping
// ---------------------------------------------------------------------
/// How one character appears inside a quoted wire string.
pub open spec fn spec_escape_char(c: char) -> Seq<char> {
    if c == '"' {
        seq!['\\', '"']
    } else if c == '\\' {
        seq!['\\', '\\']
    } else if c == '\n' {
        seq!['\\', 'n']
    } else if c == '\r' {
        seq!['\\', 'r']
    } else if c == '\t' {
        seq!['\\', 't']
    } else {
        seq![c]
    }
}

/// A whole string escaped for the wire.
pub open spec fn spec_escape(s: Seq<char>) -> Seq<char>
    decreases s.len(),
{
    if s.len() == 0 {
        Seq::empty()
    } else {
        spec_escape(s.drop_last()) + spec_escape_char(s.last())
    }
}

/// A string as it stands on the wire: quoted and escaped.
pub open spec fn spec_quote(s: Seq<char>) -> Seq<char> {
    seq!['"'] + spec_escape(s) + seq!['"']
}

fn append_escaped(out: &mut String, s: &str)
    ensures
        final(out)@ == old(out)@ + spec_escape(s@),
{
    let n = s.unicode_len();
    let mut i: usize = 0;
    while i < n
        invariant
            i <= n,
            n == s@.len(),
            out@ == old(out)@ + spec_escape(s@.take(i as int)),
        decreases n - i,
    {
        let c = s.get_char(i);
        proof {
            assert(s@.take(i as int + 1).drop_last() =~= s@.take(i as int));
            assert(s@.take(i as int + 1).last() == s@[i as int]);
        }
        if c == '"' {
            push_char(out, '\\');
            push_char(out, '"');
        } else if c == '\\' {
            push_char(out, '\\');
            push_char(out, '\\');
        } else if c == '\n' {
            push_char(out, '\\');
            push_char(out, 'n');
        } else if c == '\r' {
            push_char(out, '\\');
            push_char(out, 'r');
        } else if c == '\t' {
            push_char(out, '\\');
            push_char(out, 't');
        } else {
            push_char(out, c);
        }
        proof {
            assert(out@ =~= old(out)@ + spec_escape(s@.take(i as int + 1)));
        }
        i += 1;
    }
    proof {
        assert(s@.take(s@.len() as int) =~= s@);
    }
}

fn append_quoted(out: &mut String, s: &str)
    ensures
        final(out)@ == old(out)@ + spec_quote(s@),
{
    push_char(out, '"');
    append_escaped(out, s);
    push_char(out, '"');
    proof {
        assert(out@ =~= old(out)@ + spec_quote(s@));
    }
}

// ---------------------------------------------------------------------
// Decimal numbers
// ---------------------------------------------------------------------
/// The character for one decimal digit.
pub open spec fn spec_digit_char(d: int) -> char {
    if d == 0 {
        '0'
    } else if d == 1 {
        '1'
    } else if d == 2 {
        '2'
    } else if d == 3 {
        '3'
    } else if d == 4 {
        '4'
    } else if d == 5 {
        '5'
    } else if d == 6 {
        '6'
    } else if d == 7 {
        '7'
    } else if d == 8 {
        '8'
    } else {
        '9'
    }
}

/// A non-negative number written in decimal, most significant digit
/// first, with no leading zero except for zero itself.
pub open spec fn spec_decimal(n: int) -> Seq<char>
    decreases n,
{
    if n < 10 {
        seq![spec_digit_char(n)]
    } else {
        spec_decimal(n / 10).push(spec_digit_char(n % 10))
    }
}

fn append_decimal(out: &mut String, n: usize)
    ensures
        final(out)@ == old(out)@ + spec_decimal(n as int),
    decreases n,
{
    if n < 10 {
        let c = digit_char((n % 10) as u8);
        push_char(out, c);
        proof {
            assert(out@ =~= old(out)@ + spec_decimal(n as int));
        }
    } else {
        append_decimal(out, n / 10);
        let c = digit_char((n % 10) as u8);
        push_char(out, c);
        proof {
            assert(out@ =~= old(out)@ + spec_decimal(n as int));
        }
    }
}

fn digit_char(d: u8) -> (c: char)
    requires
        d < 10,
    ensures
        c == spec_digit_char(d as int),
{
    if d == 0 {
        '0'
    } else if d == 1 {
        '1'
    } else if d == 2 {
        '2'
    } else if d == 3 {
        '3'
    } else if d == 4 {
        '4'
    } else if d == 5 {
        '5'
    } else if d == 6 {
        '6'
    } else if d == 7 {
        '7'
    } else if d == 8 {
        '8'
    } else {
        '9'
    }
}

// ---------------------------------------------------------------------
// Outbound frames
// ---------------------------------------------------------------------
/// A plain-text notification frame.
pub open spec fn spec_message_frame(text: Seq<char>) -> Seq<char> {
    "{\"type\":\"message\",\"message\":"@ + spec_quote(text) + "}"@
}

/// A join notification frame; `length` is the room size after the join.
pub open spec fn spec_join_frame(text: Seq<char>, length: int) -> Seq<char> {
    "{\"type\":\"join\",\"message\":"@ + spec_quote(text) + ",\"length\":"@ + spec_decimal(length)
        + "}"@
}

/// An option-suggestion notification frame.
pub open spec fn spec_add_restaurant_frame(name: Seq<char>, remark: Seq<char>) -> Seq<char> {
    "{\"type\":\"add restaurant\",\"restaurant_name\":"@ + spec_quote(name) + ",\"remark\":"@
        + spec_quote(remark) + "}"@
}

/// A running-tally notification frame.
pub open spec fn spec_vote_count_frame(agree: int, disagree: int) -> Seq<char> {
    "{\"type\":\"current vote count\",\"agree\":"@ + spec_decimal(agree) + ",\"disagree\":"@
        + spec_decimal(disagree) + "}"@
}

/// The comma-separated, quoted name list inside a vote-result frame.
pub open spec fn spec_name_list(names: Seq<Seq<char>>) -> Seq<char>
    decreases names.len(),
{
    if names.len() == 0 {
        Seq::empty()
    } else if names.len() == 1 {
        spec_quote(names[0])
    } else {
        spec_name_list(names.drop_last()) + seq![','] + spec_quote(names.last())
    }
}

/// A vote-result notification frame.
pub open spec fn spec_vote_result_frame(result: Seq<char>, reject: Seq<Seq<char>>) -> Seq<char> {
    "{\"type\":\"vote result\",\"result\":"@ + spec_quote(result) + ",\"reject_list\":["@
        + spec_name_list(reject) + "]}"@
}

/// The option payload a session forwards for one suggestion.
pub open spec fn spec_option_json(name: Seq<char>, remark: Seq<char>) -> Seq<char> {
    "{\"restaurant_name\":"@ + spec_quote(name) + ",\"remark\":"@ + spec_quote(remark) + "}"@
}

pub fn encode_message_frame(text: &str) -> (r: String)
    ensures
        r@ == spec_message_frame(text@),
{
    let mut out = String::new();
    out.append("{\"type\":\"message\",\"message\":");
    append_quoted(&mut out, text);
    out.append("}");
    proof {
        assert(out@ =~= spec_message_frame(text@));
    }
    out
}

pub fn encode_join_frame(text: &str, length: usize) -> (r: String)
    ensures
        r@ == spec_join_frame(text@, length as int),
{
    let mut out = String::new();
    out.append("{\"type\":\"join\",\"message\":");
    append_quoted(&mut out, text);
    out.append(",\"length\":");
    append_decimal(&mut out, length);
    out.append("}");
    proof {
        assert(out@ =~= spec_join_frame(text@, length as int));
    }
    out
}

pub fn encode_add_restaurant_frame(name: &str, remark: &str) -> (r: String)
    ensures
        r@ == spec_add_restaurant_frame(name@, remark@),
{
    let mut out = String::new();
    out.append("{\"type\":\"add restaurant\",\"restaurant_name\":");
    append_quoted(&mut out, name);
    out.append(",\"remark\":");
    append_quoted(&mut out, remark);
    out.append("}");
    proof {
        assert(out@ =~= spec_add_restaurant_frame(name@, remark@));
    }
    out
}

pub fn encode_vote_count_frame(agree: usize, disagree: usize) -> (r: String)
    ensures
        r@ == spec_vote_count_frame(agree as int, disagree as int),
{
    let mut out = String::new();
    out.append("{\"type\":\"current vote count\",\"agree\":");
    append_decimal(&mut out, agree);
    out.append(",\"disagree\":");
    append_decimal(&mut out, disagree);
    out.append("}");
    proof {
        assert(out@ =~= spec_vote_count_frame(agree as int, disagree as int));
    }
    out
}

pub fn encode_vote_result_frame(result: &str, reject: &Vec<String>) -> (r: String)
    ensures
        r@ == spec_vote_result_frame(result@, reject@.map_values(|s: String| s@)),
{
    let mut out = String::new();
    out.append("{\"type\":\"vote result\",\"result\":");
    append_quoted(&mut out, result);
    out.append(",\"reject_list\":[");
    let ghost views = reject@.map_values(|s: String| s@);
    let mut i: usize = 0;
    while i < reject.len()
        invariant
            i <= reject@.len(),
            views == reject@.map_values(|s: String| s@),
            out@ == "{\"type\":\"vote result\",\"result\":"@ + spec_quote(result@)
                + ",\"reject_list\":["@ + spec_name_list(views.take(i as int)),
        decreases reject@.len() - i,
    {
        proof {
            assert(views.take(i as int + 1).drop_last() =~= views.take(i as int));
            assert(views.take(i as int + 1).last() == views[i as int]);
            assert(views[i as int] == reject@[i as int]@);
        }
        if i > 0 {
            push_char(&mut out, ',');
        }
        append_quoted(&mut out, reject[i].as_str());
        proof {
            if i == 0 {
                assert(spec_name_list(views.take(1)) =~= spec_quote(views[0]));
            }
            assert(out@ =~= "{\"type\":\"vote result\",\"result\":"@ + spec_quote(result@)
                + ",\"reject_list\":["@ + spec_name_list(views.take(i as int + 1)));
        }
        i += 1;
    }
    out.append("]}");
    proof {
        assert(views.take(views.len() as int) =~= views);
        assert(out@ =~= spec_vote_result_frame(result@, views));
    }
    out
}

pub fn encode_option_json(name: &str, remark: &str) -> (r: String)
    ensures
        r@ == spec_option_json(name@, remark@),
{
    let mut out = String::new();
    out.append("{\"restaurant_name\":");
    append_quoted(&mut out, name);
    out.append(",\"remark\":");
    append_quoted(&mut out, remark);
    out.append("}");
    proof {
        assert(out@ =~= spec_option_json(name@, remark@));
    }
    out
}

} // verus!

use crate::messages::{IncomingMessage, VoteMode};

verus! {

// ---------------------------------------------------------------------
// Inbound frames
//
// The wire shape accepted here is the canonical one: object keys in the
// order given below, no extra whitespace, string and boolean values
// only, and the escapes of `spec_escape_char`. Anything else is
// malformed and the frame is dropped by the caller.
// ---------------------------------------------------------------------
/// Whether `lit` occurs in `s` starting at position `i`.
pub open spec fn spec_match_at(s: Seq<char>, i: int, lit: Seq<char>) -> bool {
    0 <= i && i + lit.len() <= s.len() && s.subrange(i, i + lit.len()) == lit
}

/// The character an escape sequence stands for.
pub open spec fn spec_unescape_char(c: char) -> Option<char> {
    if c == '"' {
        Some('"')
    } else if c == '\\' {
        Some('\\')
    } else if c == 'n' {
        Some('\n')
    } else if c == 'r' {
        Some('\r')
    } else if c == 't' {
        Some('\t')
    } else {
        None
    }
}

/// Parses a quoted string's content from `i` (just past the opening
/// quote) to its closing quote; yields the unescaped content and the
/// position after the closing quote.
pub open spec fn spec_parse_str_body(s: Seq<char>, i: int) -> Option<(Seq<char>, int)>
    decreases s.len() - i,
{
    if i < 0 || i >= s.len() {
        None
    } else if s[i] == '"' {
        Some((Seq::empty(), i + 1))
    } else if s[i] == '\\' {
        if i + 1 >= s.len() {
            None
        } else {
            match spec_unescape_char(s[i + 1]) {
                Some(c) => match spec_parse_str_body(s, i + 2) {
                    Some(p) => Some((seq![c] + p.0, p.1)),
                    None => None,
                },
                None => None,
            }
        }
    } else {
        match spec_parse_str_body(s, i + 1) {
            Some(p) => Some((seq![s[i]] + p.0, p.1)),
            None => None,
        }
    }
}

/// A parsed string body never ends before the position it started at,
/// and never past the end of the input.
pub proof fn lemma_parse_str_body_bounds(s: Seq<char>, i: int)
    requires
        0 <= i,
        spec_parse_str_body(s, i) is Some,
    ensures
        i < spec_parse_str_body(s, i)->Some_0.1 <= s.len(),
    decreases s.len() - i,
{
    if i < s.len() && s[i] == '"' {
    } else if i < s.len() && s[i] == '\\' {
        lemma_parse_str_body_bounds(s, i + 2);
    } else if i < s.len() {
        lemma_parse_str_body_bounds(s, i + 1);
    }
}

/// `j` closes the object and ends the input.
pub open spec fn spec_close_end(s: Seq<char>, j: int) -> bool {
    0 <= j < s.len() && s[j] == '}' && j + 1 == s.len()
}

/// The canonical option payload, inverted: both quoted fields parsed
/// back out of `spec_option_json`'s shape.
pub open spec fn spec_parse_option_json(s: Seq<char>) -> Option<(Seq<char>, Seq<char>)> {
    let l1 = "{\"restaurant_name\":\""@;
    let l2 = ",\"remark\":\""@;
    if !spec_match_at(s, 0, l1) {
        None
    } else {
        match spec_parse_str_body(s, l1.len() as int) {
            Some(p1) => if !spec_match_at(s, p1.1, l2) {
                None
            } else {
                match spec_parse_str_body(s, p1.1 + l2.len()) {
                    Some(p2) => if spec_close_end(s, p2.1) {
                        Some((p1.0, p2.0))
                    } else {
                        None
                    },
                    None => None,
                }
            },
            None => None,
        }
    }
}

/// What one history entry looks like when replayed to a new member: an
/// option entry is formatted as a suggestion, anything else as plain
/// chat.
pub open spec fn spec_replay_text(author: Seq<char>, payload: Seq<char>) -> Seq<char> {
    match spec_parse_option_json(payload) {
        Some(p) => author + " suggest[restaurant: "@ + p.0 + ", remark: "@ + p.1 + "]"@,
        None => author + " say: "@ + payload,
    }
}

/// A decoded inbound frame, at the specification level.
pub ghost enum FrameSpec {
    Join { name: Seq<char> },
    Message { message: Seq<char> },
    SetVoteMode { vote_mode: VoteMode },
    AddRestarant { restaurant_name: Seq<char>, remark: Seq<char> },
    Vote { is_agree: bool },
}

/// The specification-level value of a decoded frame.
pub open spec fn frame_view(m: IncomingMessage) -> FrameSpec {
    match m {
        IncomingMessage::Join { name } => FrameSpec::Join { name: name@ },
        IncomingMessage::Message { message } => FrameSpec::Message { message: message@ },
        IncomingMessage::SetVoteMode { vote_mode } => FrameSpec::SetVoteMode { vote_mode },
        IncomingMessage::AddRestarant { restaurant_name, remark } => FrameSpec::AddRestarant {
            restaurant_name: restaurant_name@,
            remark: remark@,
        },
        IncomingMessage::Vote { is_agree } => FrameSpec::Vote { is_agree },
    }
}

/// The canonical inbound frame grammar.
pub open spec fn spec_parse_frame(s: Seq<char>) -> Option<FrameSpec> {
    if s == "{\"type\":\"set vote mode\",\"vote_mode\":\"majority decision\"}"@ {
        Some(FrameSpec::SetVoteMode { vote_mode: VoteMode::MajorityDecision })
    } else if s == "{\"type\":\"set vote mode\",\"vote_mode\":\"consensus decision\"}"@ {
        Some(FrameSpec::SetVoteMode { vote_mode: VoteMode::ConsensusDecision })
    } else if s == "{\"type\":\"vote\",\"is_agree\":true}"@ {
        Some(FrameSpec::Vote { is_agree: true })
    } else if s == "{\"type\":\"vote\",\"is_agree\":false}"@ {
        Some(FrameSpec::Vote { is_agree: false })
    } else if spec_match_at(s, 0, "{\"type\":\"join\",\"name\":\""@) {
        match spec_parse_str_body(s, "{\"type\":\"join\",\"name\":\""@.len() as int) {
            Some(p) => if spec_close_end(s, p.1) {
                Some(FrameSpec::Join { name: p.0 })
            } else {
                None
            },
            None => None,
        }
    } else if spec_match_at(s, 0, "{\"type\":\"message\",\"message\":\""@) {
        match spec_parse_str_body(s, "{\"type\":\"message\",\"message\":\""@.len() as int) {
            Some(p) => if spec_close_end(s, p.1) {
                Some(FrameSpec::Message { message: p.0 })
            } else {
                None
            },
            None => None,
        }
    } else if spec_match_at(s, 0, "{\"type\":\"add restaurant\",\"restaurant_name\":\""@) {
        match spec_parse_str_body(
            s,
            "{\"type\":\"add restaurant\",\"restaurant_name\":\""@.len() as int,
        ) {
            Some(p1) => if !spec_match_at(s, p1.1, ",\"remark\":\""@) {
                None
            } else {
                match spec_parse_str_body(s, p1.1 + ",\"remark\":\""@.len()) {
                    Some(p2) => if spec_close_end(s, p2.1) {
                        Some(FrameSpec::AddRestarant { restaurant_name: p1.0, remark: p2.0 })
                    } else {
                        None
                    },
                    None => None,
                }
            },
            None => None,
        }
    } else {
        None
    }
}

fn match_at(s: &str, i: usize, lit: &str) -> (b: bool)
    requires
        i <= s@.len(),
    ensures
        b == spec_match_at(s@, i as int, lit@),
{
    let n = s.unicode_len();
    let m = lit.unicode_len();
    if m > n - i {
        return false;
    }
    let mut j: usize = 0;
    while j < m
        invariant
            j <= m,
            m == lit@.len(),
            n == s@.len(),
            i + m <= n,
            forall|k: int| 0 <= k < j ==> s@[i + k] == lit@[k],
        decreases m - j,
    {
        if s.get_char(i + j) != lit.get_char(j) {
            proof {
                assert(s@.subrange(i as int, i as int + m) != lit@) by {
                    if s@.subrange(i as int, i as int + m) == lit@ {
                        assert(s@.subrange(i as int, i as int + m)[j as int] == s@[i + j]);
                    }
                }
            }
            return false;
        }
        j += 1;
    }
    proof {
        assert(s@.subrange(i as int, i as int + m) =~= lit@);
    }
    true
}

pub fn str_eq_lit(s: &str, lit: &str) -> (b: bool)
    ensures
        b == (s@ == lit@),
{
    let n = s.unicode_len();
    let m = lit.unicode_len();
    if n != m {
        proof {
            if s@ == lit@ {
                assert(false);
            }
        }
        return false;
    }
    let r = match_at(s, 0, lit);
    proof {
        assert(s@.subrange(0, n as int) =~= s@);
        if r {
            assert(s@ == lit@);
        }
    }
    r
}

fn chars_to_string(v: &Vec<char>) -> (r: String)
    ensures
        r@ == v@,
{
    let mut out = String::new();
    let mut i: usize = 0;
    while i < v.len()
        invariant
            i <= v@.len(),
            out@ == v@.take(i as int),
        decreases v@.len() - i,
    {
        push_char(&mut out, v[i]);
        proof {
            assert(out@ =~= v@.take(i as int + 1));
        }
        i += 1;
    }
    proof {
        assert(v@.take(v@.len() as int) =~= v@);
    }
    out
}

fn parse_str_body(s: &str, i: usize) -> (r: Option<(Vec<char>, usize)>)
    requires
        i <= s@.len(),
    ensures
        match r {
            Some(p) => spec_parse_str_body(s@, i as int) == Some((p.0@, p.1 as int)) && i < p.1
                <= s@.len(),
            None => spec_parse_str_body(s@, i as int) is None,
        },
    decreases s@.len() - i,
{
    let n = s.unicode_len();
    if i >= n {
        return None;
    }
    let c = s.get_char(i);
    if c == '"' {
        let empty: Vec<char> = Vec::new();
        return Some((empty, i + 1));
    }
    if c == '\\' {
        if i + 1 >= n {
            return None;
        }
        let e = s.get_char(i + 1);
        let u: char = if e == '"' {
            '"'
        } else if e == '\\' {
            '\\'
        } else if e == 'n' {
            '\n'
        } else if e == 'r' {
            '\r'
        } else if e == 't' {
            '\t'
        } else {
            return None;
        };
        assert(spec_unescape_char(s@[i as int + 1]) == Some(u));
        match parse_str_body(s, i + 2) {
            Some(p) => {
                let mut content = p.0;
                content.insert(0, u);
                proof {
                    assert(content@ =~= seq![u] + p.0@);
                }
                Some((content, p.1))
            },
            None => None,
        }
    } else {
        match parse_str_body(s, i + 1) {
            Some(p) => {
                let mut content = p.0;
                content.insert(0, c);
                proof {
                    assert(content@ =~= seq![c] + p.0@);
                }
                Some((content, p.1))
            },
            None => None,
        }
    }
}

fn close_end(s: &str, j: usize) -> (b: bool)
    requires
        j <= s@.len(),
    ensures
        b == spec_close_end(s@, j as int),
{
    let n = s.unicode_len();
    if j < n && j + 1 == n {
        let c = s.get_char(j);
        c == '}'
    } else {
        false
    }
}

/// Decodes the canonical option payload; `None` on anything else.
pub fn parse_option_json(s: &str) -> (r: Option<(String, String)>)
    ensures
        match r {
            Some(p) => spec_parse_option_json(s@) == Some((p.0@, p.1@)),
            None => spec_parse_option_json(s@) is None,
        },
{
    let whole = s.unicode_len();
    proof {
        assert(whole == s@.len());
    }
    let l1 = "{\"restaurant_name\":\"";
    let l2 = ",\"remark\":\"";
    if !match_at(s, 0, l1) {
        return None;
    }
    let i1 = l1.unicode_len();
    proof {
        assert(i1 <= s@.len());
    }
    match parse_str_body(s, i1) {
        Some(p1) => {
            if !match_at(s, p1.1, l2) {
                return None;
            }
            let i2 = p1.1 + l2.unicode_len();
            proof {
                assert(i2 <= s@.len());
            }
            match parse_str_body(s, i2) {
                Some(p2) => {
                    if close_end(s, p2.1) {
                        Some((chars_to_string(&p1.0), chars_to_string(&p2.0)))
                    } else {
                        None
                    }
                },
                None => None,
            }
        },
        None => None,
    }
}

/// Decodes one inbound text frame; `None` on anything malformed or
/// unrecognized.
pub fn parse_frame(s: &str) -> (r: Option<IncomingMessage>)
    ensures
        match r {
            Some(m) => spec_parse_frame(s@) == Some(frame_view(m)),
            None => spec_parse_frame(s@) is None,
        },
{
    let whole = s.unicode_len();
    proof {
        assert(whole == s@.len());
    }
    if str_eq_lit(s, "{\"type\":\"set vote mode\",\"vote_mode\":\"majority decision\"}") {
        return Some(IncomingMessage::SetVoteMode { vote_mode: VoteMode::MajorityDecision });
    }
    if str_eq_lit(s, "{\"type\":\"set vote mode\",\"vote_mode\":\"consensus decision\"}") {
        return Some(IncomingMessage::SetVoteMode { vote_mode: VoteMode::ConsensusDecision });
    }
    if str_eq_lit(s, "{\"type\":\"vote\",\"is_agree\":true}") {
        return Some(IncomingMessage::Vote { is_agree: true });
    }
    if str_eq_lit(s, "{\"type\":\"vote\",\"is_agree\":false}") {
        return Some(IncomingMessage::Vote { is_agree: false });
    }
    let lj = "{\"type\":\"join\",\"name\":\"";
    let lm = "{\"type\":\"message\",\"message\":\"";
    let la = "{\"type\":\"add restaurant\",\"restaurant_name\":\"";
    let lar = ",\"remark\":\"";
    if match_at(s, 0, lj) {
        match parse_str_body(s, lj.unicode_len()) {
            Some(p) => {
                if close_end(s, p.1) {
                    return Some(IncomingMessage::Join { name: chars_to_string(&p.0) });
                } else {
                    return None;
                }
            },
            None => {
                return None;
            },
        }
    }
    if match_at(s, 0, lm) {
        match parse_str_body(s, lm.unicode_len()) {
            Some(p) => {
                if close_end(s, p.1) {
                    return Some(IncomingMessage::Message { message: chars_to_string(&p.0) });
                } else {
                    return None;
                }
            },
            None => {
                return None;
            },
        }
    }
    if match_at(s, 0, la) {
        match parse_str_body(s, la.unicode_len()) {
            Some(p1) => {
                if !match_at(s, p1.1, lar) {
                    return None;
                }
                let i2 = p1.1 + lar.unicode_len();
                proof {
                    assert(i2 <= s@.len());
                }
                match parse_str_body(s, i2) {
                    Some(p2) => {
                        if close_end(s, p2.1) {
                            return Some(
                                IncomingMessage::AddRestarant {
                                    restaurant_name: chars_to_string(&p1.0),
                                    remark: chars_to_string(&p2.0),
                                },
                            );
                        } else {
                            return None;
                        }
                    },
                    None => {
                        return None;
                    },
                }
            },
            None => {
                return None;
            },
        }
    }
    None
}

/// The text a stored history entry is replayed as.
pub fn replay_text(author: &str, payload: &str) -> (r: String)
    ensures
        r@ == spec_replay_text(author@, payload@),
{
    match parse_option_json(payload) {
        Some(p) => {
            let mut out = String::new();
            out.append(author);
            out.append(" suggest[restaurant: ");
            out.append(p.0.as_str());
            out.append(", remark: ");
            out.append(p.1.as_str());
            out.append("]");
            proof {
                assert(out@ =~= spec_replay_text(author@, payload@));
            }
            out
        },
        None => {
            let mut out = String::new();
            out.append(author);
            out.append(" say: ");
            out.append(payload);
            proof {
                assert(out@ =~= spec_replay_text(author@, payload@));
            }
            out
        },
    }
}

} // verus!

verus! {

/// A number rendered in decimal, as the wire and the room codes use it.
pub fn decimal_string(n: usize) -> (r: String)
    ensures
        r@ == spec_decimal(n as int),
{
    let mut out = String::new();
    append_decimal(&mut out, n);
    out
}

} // verus!

verus! {

/// Escaping distributes over concatenation.
proof fn lemma_escape_add(a: Seq<char>, b: Seq<char>)
    ensures
        spec_escape(a + b) == spec_escape(a) + spec_escape(b),
    decreases b.len(),
{
    if b.len() == 0 {
        assert(a + b =~= a);
        assert(spec_escape(a) + spec_escape(b) =~= spec_escape(a));
    } else {
        lemma_escape_add(a, b.drop_last());
        assert((a + b).drop_last() =~= a + b.drop_last());
        assert((a + b).last() == b.last());
        assert(spec_escape(a + b) =~= spec_escape(a) + spec_escape(b));
    }
}

/// Parsing a string body undoes escaping: the escaped content followed
/// by a closing quote parses back to the content, ending just past the
/// quote.
proof fn lemma_parse_str_body_inverts_escape(w: Seq<char>, i: int, s: Seq<char>)
    requires
        0 <= i,
        i + spec_escape(s).len() + 1 <= w.len(),
        w.subrange(i, i + spec_escape(s).len() + 1) == spec_escape(s) + seq!['"'],
    ensures
        spec_parse_str_body(w, i) == Some((s, i + spec_escape(s).len() + 1)),
    decreases s.len(),
{
    let ext = spec_escape(s) + seq!['"'];
    let ll = spec_escape(s).len() as int;
    assert forall|k: int| 0 <= k <= ll implies w[i + k] == #[trigger] ext[k] by {
        assert(w.subrange(i, i + ll + 1)[k] == w[i + k]);
    }
    if s.len() == 0 {
        assert(spec_escape(s) =~= Seq::<char>::empty());
        assert(w[i + 0] == ext[0]);
        assert(ext[0] == '"');
        assert(w[i] == '"');
    } else {
        let c = s[0];
        let rest = s.subrange(1, s.len() as int);
        assert(s =~= seq![c] + rest);
        lemma_escape_add(seq![c], rest);
        assert(spec_escape(seq![c]) =~= spec_escape_char(c)) by {
            assert(seq![c].drop_last() =~= Seq::<char>::empty());
            assert(seq![c].last() == c);
            assert(spec_escape(Seq::<char>::empty()) =~= Seq::<char>::empty());
            assert(spec_escape(seq![c]) == spec_escape(seq![c].drop_last())
                + spec_escape_char(seq![c].last()));
        }
        let ec = spec_escape_char(c);
        assert(spec_escape(s) == spec_escape(seq![c] + rest));
        assert(spec_escape(s) == spec_escape(seq![c]) + spec_escape(rest));
        assert(spec_escape(s) == ec + spec_escape(rest));
        let el = ec.len() as int;
        assert forall|k: int| 0 <= k < el implies ext[k] == #[trigger] ec[k] by {
            assert(ext[k] == spec_escape(s)[k]);
            assert(spec_escape(s)[k] == (ec + spec_escape(rest))[k]);
        }
        let i2 = i + el;
        let rl = spec_escape(rest).len() as int;
        assert forall|k: int|
            0 <= k <= rl implies #[trigger] ext[el + k] == (spec_escape(rest) + seq!['"'])[k] by {
            if k < rl {
                assert(ext[el + k] == spec_escape(s)[el + k]);
                assert(spec_escape(s)[el + k] == (ec + spec_escape(rest))[el + k]);
            } else {
                assert(ext[el + k] == ext[ll]);
            }
        }
        assert(w.subrange(i2, i2 + rl + 1) =~= spec_escape(rest) + seq!['"']) by {
            assert forall|k: int|
                0 <= k < rl + 1 implies #[trigger] w.subrange(i2, i2 + rl + 1)[k] == (spec_escape(
                rest,
            ) + seq!['"'])[k] by {
                assert(w.subrange(i2, i2 + rl + 1)[k] == w[i2 + k]);
                assert(w[i + (el + k)] == ext[el + k]);
            }
        }
        lemma_parse_str_body_inverts_escape(w, i2, rest);
        if c == '"' || c == '\\' || c == '\n' || c == '\r' || c == '\t' {
            assert(el == 2);
            assert(w[i] == '\\');
            assert(w[i + 1] == ec[1]);
            assert(spec_unescape_char(ec[1]) == Some(c));
            assert(i + 1 < w.len());
            assert(spec_parse_str_body(w, i) == Some(
                (seq![c] + rest, i2 + spec_escape(rest).len() + 1),
            ));
        } else {
            assert(el == 1);
            assert(w[i] == c);
            assert(c != '"' && c != '\\');
            assert(spec_parse_str_body(w, i) == Some(
                (seq![c] + rest, i2 + spec_escape(rest).len() + 1),
            ));
        }
        assert(seq![c] + rest =~= s);
        assert(i2 + spec_escape(rest).len() + 1 == i + spec_escape(s).len() + 1);
    }
}

} // verus!

verus! {

proof fn lemma_mid_subrange(pre: Seq<char>, mid: Seq<char>, post: Seq<char>)
    ensures
        (pre + mid + post).subrange(pre.len() as int, pre.len() + mid.len() as int) =~= mid,
{
}

/// An option payload written by `encode_option_json` always parses back
/// to exactly the two fields it was written from; so a history entry
/// recorded for an option is always replayed as a suggestion, never as
/// chat.
pub proof fn lemma_option_json_round_trip(name: Seq<char>, remark: Seq<char>)
    ensures
        spec_parse_option_json(spec_option_json(name, remark)) == Some((name, remark)),
{
    reveal_strlit("{\"restaurant_name\":");
    reveal_strlit("{\"restaurant_name\":\"");
    reveal_strlit(",\"remark\":");
    reveal_strlit(",\"remark\":\"");
    reveal_strlit("}");
    let l1 = "{\"restaurant_name\":\""@;
    let l2 = ",\"remark\":\""@;
    let s = spec_option_json(name, remark);
    let en = spec_escape(name);
    let er = spec_escape(remark);
    let tail1 = en + seq!['"'];
    let tail2 = er + seq!['"'];
    assert(l1 =~= "{\"restaurant_name\":"@ + seq!['"']);
    assert(l2 =~= ",\"remark\":"@ + seq!['"']);
    assert(l1.len() == 20);
    assert(l2.len() == 11);
    assert(s =~= l1 + tail1 + (l2 + tail2 + seq!['}']));
    let rest2 = l2 + tail2 + seq!['}'];
    assert(spec_match_at(s, 0, l1)) by {
        lemma_mid_subrange(Seq::empty(), l1, tail1 + rest2);
        assert(Seq::empty() + l1 + (tail1 + rest2) =~= s);
        assert(s.subrange(0, l1.len() as int) == l1);
    }
    assert(spec_parse_str_body(s, l1.len() as int) == Some((name, 20 + en.len() as int + 1))) by {
        lemma_mid_subrange(l1, tail1, rest2);
        assert(l1 + tail1 + rest2 =~= s);
        assert(s.subrange(20, 20 + en.len() as int + 1) == en + seq!['"']);
        lemma_parse_str_body_inverts_escape(s, 20, name);
    }
    let j1 = 20 + en.len() as int + 1;
    assert(spec_match_at(s, j1, l2)) by {
        lemma_mid_subrange(l1 + tail1, l2, tail2 + seq!['}']);
        assert(l1 + tail1 + l2 + (tail2 + seq!['}']) =~= s);
        assert((l1 + tail1).len() == j1);
        assert(s.subrange(j1, j1 + l2.len() as int) == l2);
    }
    let j2 = j1 + 11;
    assert(spec_parse_str_body(s, j2) == Some((remark, j2 + er.len() as int + 1))) by {
        lemma_mid_subrange(l1 + tail1 + l2, tail2, seq!['}']);
        assert(l1 + tail1 + l2 + tail2 + seq!['}'] =~= s);
        assert((l1 + tail1 + l2).len() == j2);
        assert(s.subrange(j2, j2 + er.len() as int + 1) == er + seq!['"']);
        lemma_parse_str_body_inverts_escape(s, j2, remark);
    }
    let j3 = j2 + er.len() as int + 1;
    assert(spec_close_end(s, j3)) by {
        assert(s.len() == j3 + 1);
        assert(s[j3] == (l1 + tail1 + l2 + tail2 + seq!['}'])[j3]);
    }
}

/// A history entry recorded for an option is replayed to a new member
/// as a suggestion, never as chat.
pub proof fn lemma_option_entry_replays_as_suggestion(
    author: Seq<char>,
    name: Seq<char>,
    remark: Seq<char>,
)
    ensures
        spec_replay_text(author, spec_option_json(name, remark)) == author
            + " suggest[restaurant: "@ + name + ", remark: "@ + remark + "]"@,
{
    lemma_option_json_round_trip(name, remark);
}

} // verus!
