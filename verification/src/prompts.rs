//! Parsing of the LLM's voice-decision reply.
//!
//! The LLM is asked for a JSON object of the form
//!
//! ```json
//! { "decision": "voice" | "silence", "behavior": "speak" | "help" | "error_talk" | null }
//! ```
//!
//! Parse failures fall back to silence (`parse_failed = true`). The reply's
//! first balanced `{...}` object is found here; its decoding as a typed
//! decision is done by the caller, and when that fails the object is read here
//! as a generic JSON value.

use vstd::prelude::*;

use crate::text::{
    all_white_space, ascii_lower_seq, chars_equal, chars_of, label_key, label_key_of,
    lemma_label_key_ignores_case, lemma_label_key_ignores_surrounding_white_space,
    lemma_plain_label_key,
};

verus! {

// ------------------------------------------------------------------------- //
// Learning behavior kind
// ------------------------------------------------------------------------- //

/// Which learning behavior an individual engaged in this step (when voicing).
#[derive(Clone, Copy, PartialEq, Eq, Debug, Structural)]
pub enum Behavior {
    /// Speaking up / feedback-seeking (voice).
    Speak,
    /// Asking for help.
    Help,
    /// Talking about an error openly.
    ErrorTalk,
}

/// The stable label of a behavior.
pub open spec fn behavior_label(b: Behavior) -> Seq<char> {
    match b {
        Behavior::Speak => "speak"@,
        Behavior::Help => "help"@,
        Behavior::ErrorTalk => "error_talk"@,
    }
}

/// The behavior that a canonical (trimmed, lower-cased) label names.
pub open spec fn behavior_of_key(key: Seq<char>) -> Option<Behavior> {
    if key == "speak"@ || key == "voice"@ || key == "feedback"@ {
        Some(Behavior::Speak)
    } else if key == "help"@ || key == "ask_help"@ || key == "help_seeking"@ {
        Some(Behavior::Help)
    } else if key == "error_talk"@ || key == "error"@ || key == "discuss_error"@ {
        Some(Behavior::ErrorTalk)
    } else {
        None
    }
}

impl Behavior {
    /// Stable label.
    pub fn label(&self) -> (r: &'static str)
        ensures
            r@ == behavior_label(*self),
    {
        match self {
            Behavior::Speak => "speak",
            Behavior::Help => "help",
            Behavior::ErrorTalk => "error_talk",
        }
    }

    /// Parse a behavior label: surrounding whitespace and ASCII case are
    /// ignored.
    pub fn parse(s: &str) -> (r: Option<Behavior>)
        ensures
            r == behavior_of_key(label_key(s@)),
    {
        let key = label_key_of(s);
        if chars_equal(&key, "speak") || chars_equal(&key, "voice") || chars_equal(
            &key,
            "feedback",
        ) {
            Some(Behavior::Speak)
        } else if chars_equal(&key, "help") || chars_equal(&key, "ask_help") || chars_equal(
            &key,
            "help_seeking",
        ) {
            Some(Behavior::Help)
        } else if chars_equal(&key, "error_talk") || chars_equal(&key, "error") || chars_equal(
            &key,
            "discuss_error",
        ) {
            Some(Behavior::ErrorTalk)
        } else {
            None
        }
    }
}

/// Parsing a behavior's own label gives that behavior back.
pub proof fn lemma_behavior_label_roundtrip(b: Behavior)
    ensures
        behavior_of_key(label_key(behavior_label(b))) == Some(b),
{
    reveal_strlit("speak");
    reveal_strlit("voice");
    reveal_strlit("feedback");
    reveal_strlit("help");
    reveal_strlit("ask_help");
    reveal_strlit("help_seeking");
    reveal_strlit("error_talk");
    reveal_strlit("error");
    reveal_strlit("discuss_error");
    lemma_plain_label_key(behavior_label(b));
}

// ------------------------------------------------------------------------- //
// Response parsing
// ------------------------------------------------------------------------- //

/// Parsed voice-decision verdict.
#[derive(Debug, Clone, Copy, PartialEq, Eq, Structural)]
pub struct VoiceVerdict {
    /// True iff the individual voiced.
    pub voiced: bool,
    /// The learning behavior when voicing; `None` on silence.
    pub behavior: Option<Behavior>,
    /// True if parsing failed and we fell back to silence.
    pub parse_failed: bool,
}

/// The verdict given when the reply cannot be understood.
pub open spec fn fallback_verdict() -> VoiceVerdict {
    VoiceVerdict { voiced: false, behavior: None, parse_failed: true }
}

/// The two fields of the reply's JSON object as a typed decision: each is
/// `None` when the field is missing or `null`.
pub struct RawDecision {
    pub decision: Option<String>,
    pub behavior: Option<String>,
}

/// The characters of an optional string.
pub open spec fn opt_chars(o: Option<String>) -> Option<Seq<char>> {
    match o {
        Some(s) => Some(s@),
        None => None,
    }
}

/// Whether a canonical decision key means VOICE.
pub open spec fn is_voice_key(key: Seq<char>) -> bool {
    key == "voice"@ || key == "speak"@ || key == "speak_up"@
}

/// Whether a canonical decision key means SILENCE.
pub open spec fn is_silence_key(key: Seq<char>) -> bool {
    key == "silence"@ || key == "silent"@ || key == "withhold"@
}

/// The verdict for a decision field and a behavior field.
///
/// A VOICE decision takes the named behavior, or `Speak` when the behavior is
/// missing or not recognised; a SILENCE decision has no behavior; any other
/// decision (or none) is a parse failure.
pub open spec fn verdict_of(decision: Option<Seq<char>>, behavior: Option<Seq<char>>) -> VoiceVerdict {
    let key = match decision {
        Some(d) => label_key(d),
        None => Seq::<char>::empty(),
    };
    if is_voice_key(key) {
        let b = match behavior {
            Some(bs) => match behavior_of_key(label_key(bs)) {
                Some(x) => x,
                None => Behavior::Speak,
            },
            None => Behavior::Speak,
        };
        VoiceVerdict { voiced: true, behavior: Some(b), parse_failed: false }
    } else if is_silence_key(key) {
        VoiceVerdict { voiced: false, behavior: None, parse_failed: false }
    } else {
        fallback_verdict()
    }
}

/// Turn the raw decision fields into a verdict (see [`verdict_of`]).
pub fn finalise_verdict(raw: RawDecision) -> (v: VoiceVerdict)
    ensures
        v == verdict_of(opt_chars(raw.decision), opt_chars(raw.behavior)),
        v.voiced <==> v.behavior is Some,
        v.parse_failed ==> !v.voiced,
{
    let key: Vec<char> = match &raw.decision {
        Some(d) => label_key_of(d.as_str()),
        None => Vec::new(),
    };
    assert(key@ == match opt_chars(raw.decision) {
        Some(d) => label_key(d),
        None => Seq::<char>::empty(),
    });
    if chars_equal(&key, "voice") || chars_equal(&key, "speak") || chars_equal(&key, "speak_up") {
        let behavior = match &raw.behavior {
            Some(b) => match Behavior::parse(b.as_str()) {
                Some(x) => x,
                None => Behavior::Speak,
            },
            None => Behavior::Speak,
        };
        VoiceVerdict { voiced: true, behavior: Some(behavior), parse_failed: false }
    } else if chars_equal(&key, "silence") || chars_equal(&key, "silent") || chars_equal(
        &key,
        "withhold",
    ) {
        VoiceVerdict { voiced: false, behavior: None, parse_failed: false }
    } else {
        VoiceVerdict { voiced: false, behavior: None, parse_failed: true }
    }
}

/// Index of the first `{` in `s` at or after `i`.
pub open spec fn find_open_brace(s: Seq<char>, i: int) -> Option<int>
    decreases s.len() - i,
{
    if i >= s.len() {
        None
    } else if s[i] == '{' {
        Some(i)
    } else {
        find_open_brace(s, i + 1)
    }
}

/// Scan `s` from index `i` in the given lexer state (brace depth, inside a
/// string literal, after a backslash inside one) and return the index of the
/// `}` that brings the depth back to zero, if any.
pub open spec fn scan_object_end(
    s: Seq<char>,
    i: int,
    depth: int,
    in_str: bool,
    esc: bool,
) -> Option<int>
    decreases s.len() - i,
{
    if i >= s.len() {
        None
    } else {
        let c = s[i];
        if in_str {
            if esc {
                scan_object_end(s, i + 1, depth, true, false)
            } else if c == '\\' {
                scan_object_end(s, i + 1, depth, true, true)
            } else if c == '"' {
                scan_object_end(s, i + 1, depth, false, esc)
            } else {
                scan_object_end(s, i + 1, depth, true, esc)
            }
        } else if c == '"' {
            scan_object_end(s, i + 1, depth, true, esc)
        } else if c == '{' {
            scan_object_end(s, i + 1, depth + 1, false, esc)
        } else if c == '}' {
            if depth - 1 == 0 {
                Some(i)
            } else {
                scan_object_end(s, i + 1, depth - 1, false, esc)
            }
        } else {
            scan_object_end(s, i + 1, depth, false, esc)
        }
    }
}

/// The first balanced `{...}` substring of `s` (braces inside string literals
/// do not count), if there is one.
pub open spec fn json_object_in(s: Seq<char>) -> Option<Seq<char>> {
    match find_open_brace(s, 0) {
        None => None,
        Some(st) => match scan_object_end(s, st, 0, false, false) {
            Some(e) => Some(s.subrange(st, e + 1)),
            None => None,
        },
    }
}

/// A scan that finds an end stops on a `}` at or after where it started.
proof fn lemma_scan_end_is_close_brace(s: Seq<char>, i: int, depth: int, in_str: bool, esc: bool)
    requires
        scan_object_end(s, i, depth, in_str, esc) is Some,
    ensures
        i <= scan_object_end(s, i, depth, in_str, esc)->0 < s.len(),
        s[scan_object_end(s, i, depth, in_str, esc)->0] == '}',
    decreases s.len() - i,
{
    if i < s.len() {
        let c = s[i];
        if in_str {
            if esc {
                lemma_scan_end_is_close_brace(s, i + 1, depth, true, false);
            } else if c == '\\' {
                lemma_scan_end_is_close_brace(s, i + 1, depth, true, true);
            } else if c == '"' {
                lemma_scan_end_is_close_brace(s, i + 1, depth, false, esc);
            } else {
                lemma_scan_end_is_close_brace(s, i + 1, depth, true, esc);
            }
        } else if c == '"' {
            lemma_scan_end_is_close_brace(s, i + 1, depth, true, esc);
        } else if c == '{' {
            lemma_scan_end_is_close_brace(s, i + 1, depth + 1, false, esc);
        } else if c == '}' {
            if depth - 1 != 0 {
                lemma_scan_end_is_close_brace(s, i + 1, depth - 1, false, esc);
            }
        } else {
            lemma_scan_end_is_close_brace(s, i + 1, depth, false, esc);
        }
    }
}

/// Collects the characters of `cs` into a `String` with `Iterator::collect`
/// (std's `FromIterator<&char>` for `String`). The contract claims that the
/// string holds exactly those characters, in order.
#[verifier::external_body]
fn string_from_chars(cs: &Vec<char>) -> (r: String)
    ensures
        r@ == cs@,
{
    cs.iter().collect::<String>()
}

/// Extract the first balanced `{...}` substring from `text`.
pub fn extract_json_object(text: &str) -> (r: Option<String>)
    ensures
        opt_chars(r) == json_object_in(text@),
        r matches Some(o) ==> o@.len() >= 2 && o@[0] == '{' && o@.last() == '}',
{
    let cs = chars_of(text);
    let n = cs.len();
    let mut start: usize = 0;
    while start < n && cs[start] != '{'
        invariant
            n == cs@.len(),
            cs@ == text@,
            start <= n,
            find_open_brace(cs@, 0) == find_open_brace(cs@, start as int),
        decreases n - start,
    {
        start = start + 1;
    }
    if start == n {
        return None;
    }
    let ghost st = start as int;
    let mut depth: usize = 0;
    let mut in_str = false;
    let mut esc = false;
    let mut i: usize = start;
    while i < n
        invariant
            n == cs@.len(),
            cs@ == text@,
            start as int == st,
            st < n,
            cs@[st] == '{',
            find_open_brace(cs@, 0) == Some(st),
            st <= i <= n,
            depth <= i - st,
            i > st ==> depth >= 1,
            i == st ==> depth == 0 && !in_str && !esc,
            scan_object_end(cs@, st, 0, false, false) == scan_object_end(
                cs@,
                i as int,
                depth as int,
                in_str,
                esc,
            ),
        decreases n - i,
    {
        let c = cs[i];
        if in_str {
            if esc {
                esc = false;
            } else if c == '\\' {
                esc = true;
            } else if c == '"' {
                in_str = false;
            }
        } else if c == '"' {
            in_str = true;
        } else if c == '{' {
            depth = depth + 1;
        } else if c == '}' {
            depth = depth - 1;
            if depth == 0 {
                assert(scan_object_end(cs@, st, 0, false, false) == Some(i as int));
                proof {
                    lemma_scan_end_is_close_brace(cs@, st, 0, false, false);
                }
                let mut piece: Vec<char> = Vec::new();
                let mut p: usize = start;
                while p <= i
                    invariant
                        n == cs@.len(),
                        cs@ == text@,
                        start as int == st,
                        find_open_brace(cs@, 0) == Some(st),
                        scan_object_end(cs@, st, 0, false, false) == Some(i as int),
                        start <= p <= i + 1,
                        i < n,
                        piece@ == cs@.subrange(start as int, p as int),
                    decreases i + 1 - p,
                {
                    piece.push(cs[p]);
                    proof {
                        assert(cs@.subrange(start as int, p + 1) =~= cs@.subrange(
                            start as int,
                            p as int,
                        ).push(cs@[p as int]));
                    }
                    p = p + 1;
                }
                return Some(string_from_chars(&piece));
            }
        }
        i = i + 1;
    }
    None
}

/// What serde_json reads from the JSON text `json` at the top-level key `key`:
/// `None` when the text is not valid JSON; `Some(None)` when the key is
/// missing, the value is not a string, or the text is not an object;
/// `Some(Some(v))` when the key holds the string `v` (escapes decoded; the last
/// of duplicate keys wins).
pub uninterp spec fn json_string_field(json: Seq<char>, key: Seq<char>) -> Option<Option<Seq<char>>>;

/// The characters of a doubly optional string.
pub open spec fn opt_opt_chars(o: Option<Option<String>>) -> Option<Option<Seq<char>>> {
    match o {
        Some(inner) => Some(opt_chars(inner)),
        None => None,
    }
}

/// Parses `json` with `serde_json::from_str` into a `serde_json::Value`, then
/// reads the string at top-level key `key` with `Value::get` and
/// `Value::as_str`, and copies it out. The contract claims only that the
/// result is a function of the text and the key, named
/// [`json_string_field`]; which texts serde_json accepts and what it decodes
/// them to is its JSON grammar, and is left unsaid.
#[verifier::external_body]
fn read_json_string_field(json: &str, key: &str) -> (r: Option<Option<String>>)
    ensures
        opt_opt_chars(r) == json_string_field(json@, key@),
{
    match serde_json::from_str::<serde_json::Value>(json) {
        Err(_) => None,
        Ok(v) => match v.get(key) {
            None => Some(None),
            Some(x) => match x.as_str() {
                None => Some(None),
                Some(t) => Some(Some(t.to_string())),
            },
        },
    }
}

/// The verdict from what was read at the keys `"decision"` and `"behavior"`
/// of the reply's object as a generic JSON value (see [`json_string_field`]):
/// an unreadable object gives the fallback verdict; an unreadable behavior
/// counts as none.
pub open spec fn verdict_of_reads(
    decision: Option<Option<Seq<char>>>,
    behavior: Option<Option<Seq<char>>>,
) -> VoiceVerdict {
    match decision {
        None => fallback_verdict(),
        Some(d) => verdict_of(
            d,
            match behavior {
                Some(b) => b,
                None => None,
            },
        ),
    }
}

/// Turn the two generic-JSON reads of the reply's object into a verdict (see
/// [`verdict_of_reads`]).
pub fn verdict_from_reads(decision: Option<Option<String>>, behavior: Option<Option<String>>) -> (v:
    VoiceVerdict)
    ensures
        v == verdict_of_reads(opt_opt_chars(decision), opt_opt_chars(behavior)),
        v.voiced <==> v.behavior is Some,
        v.parse_failed ==> !v.voiced,
{
    let decision = match decision {
        Some(d) => d,
        None => {
            return VoiceVerdict { voiced: false, behavior: None, parse_failed: true };
        },
    };
    let behavior = match behavior {
        Some(b) => b,
        None => None,
    };
    finalise_verdict(RawDecision { decision, behavior })
}

/// The characters of the two fields of an optional typed decision.
pub open spec fn opt_raw_chars(typed: Option<RawDecision>) -> Option<(Option<Seq<char>>, Option<Seq<char>>)> {
    match typed {
        Some(raw) => Some((opt_chars(raw.decision), opt_chars(raw.behavior))),
        None => None,
    }
}

/// The verdict for an LLM reply, given the first balanced `{...}` object found
/// in it (see [`json_object_in`]) and that object decoded as a typed decision
/// (its `"decision"` and `"behavior"` fields each absent, `null` or a string),
/// when that decoding succeeded.
///
/// No object gives the fallback verdict. A typed decision decides the verdict
/// by [`verdict_of`]. Otherwise the object is read as a generic JSON value and
/// [`verdict_of_reads`] decides.
pub open spec fn reply_verdict(
    object: Option<Seq<char>>,
    typed: Option<(Option<Seq<char>>, Option<Seq<char>>)>,
) -> VoiceVerdict {
    match object {
        None => fallback_verdict(),
        Some(o) => match typed {
            Some((d, b)) => verdict_of(d, b),
            None => verdict_of_reads(
                json_string_field(o, "decision"@),
                json_string_field(o, "behavior"@),
            ),
        },
    }
}

/// The verdict for an LLM reply (see [`reply_verdict`]): `object` is the
/// first balanced `{...}` substring of the reply, `typed` its decoding as a
/// typed decision when that succeeded. Lenient: mixed-case labels are
/// accepted, and any failure falls back to silence.
pub fn verdict_for_reply(object: Option<String>, typed: Option<RawDecision>) -> (v: VoiceVerdict)
    ensures
        v == reply_verdict(opt_chars(object), opt_raw_chars(typed)),
        v.voiced <==> v.behavior is Some,
        v.parse_failed ==> !v.voiced,
{
    let json_str = match object {
        Some(s) => s,
        None => {
            return VoiceVerdict { voiced: false, behavior: None, parse_failed: true };
        },
    };
    match typed {
        Some(raw) => finalise_verdict(raw),
        None => {
            let decision = read_json_string_field(json_str.as_str(), "decision");
            let behavior = read_json_string_field(json_str.as_str(), "behavior");
            verdict_from_reads(decision, behavior)
        },
    }
}

// ------------------------------------------------------------------------- //
// Laws of the verdict
// ------------------------------------------------------------------------- //

/// A VOICE decision with a behavior field holding a behavior's label is a
/// voiced verdict with exactly that behavior.
pub proof fn lemma_voice_keeps_named_behavior(d: Seq<char>, x: Behavior)
    requires
        label_key(d) == "voice"@ || label_key(d) == "speak"@ || label_key(d) == "speak_up"@,
    ensures
        verdict_of(Some(d), Some(behavior_label(x))) == (VoiceVerdict {
            voiced: true,
            behavior: Some(x),
            parse_failed: false,
        }),
{
    lemma_behavior_label_roundtrip(x);
}

/// A VOICE decision without a behavior field is a voiced verdict with
/// behavior `Speak`.
pub proof fn lemma_voice_without_behavior_speaks(d: Seq<char>)
    requires
        label_key(d) == "voice"@ || label_key(d) == "speak"@ || label_key(d) == "speak_up"@,
    ensures
        verdict_of(Some(d), None) == (VoiceVerdict {
            voiced: true,
            behavior: Some(Behavior::Speak),
            parse_failed: false,
        }),
{
}

/// A SILENCE decision is a silent verdict, whatever the behavior field holds.
pub proof fn lemma_silence_ignores_behavior(d: Seq<char>, b: Option<Seq<char>>)
    requires
        label_key(d) == "silence"@ || label_key(d) == "silent"@ || label_key(d) == "withhold"@,
    ensures
        verdict_of(Some(d), b) == (VoiceVerdict { voiced: false, behavior: None, parse_failed: false }),
{
    reveal_strlit("voice");
    reveal_strlit("speak");
    reveal_strlit("speak_up");
    reveal_strlit("silence");
    reveal_strlit("silent");
    reveal_strlit("withhold");
    let k = label_key(d);
    assert("voice"@.len() == 5 && "speak"@.len() == 5 && "speak_up"@.len() == 8);
    if k == "withhold"@ {
        assert(k.len() == 8);
        assert(k[0] != "speak_up"@[0]);
    } else if k == "silence"@ {
        assert(k.len() == 7);
    } else {
        assert(k.len() == 6);
    }
    assert(!is_voice_key(k));
}

/// ASCII case of the decision and behavior labels does not change the verdict.
pub proof fn lemma_verdict_ignores_case(d: Seq<char>, b: Seq<char>)
    ensures
        verdict_of(Some(ascii_lower_seq(d)), Some(b)) == verdict_of(Some(d), Some(b)),
        verdict_of(Some(d), Some(ascii_lower_seq(b))) == verdict_of(Some(d), Some(b)),
{
    lemma_label_key_ignores_case(d);
    lemma_label_key_ignores_case(b);
}

/// Whitespace around the decision and behavior labels does not change the
/// verdict.
pub proof fn lemma_verdict_ignores_surrounding_white_space(
    w1: Seq<char>,
    d: Seq<char>,
    w2: Seq<char>,
    b: Seq<char>,
)
    requires
        all_white_space(w1),
        all_white_space(w2),
    ensures
        verdict_of(Some(w1 + d + w2), Some(b)) == verdict_of(Some(d), Some(b)),
        verdict_of(Some(d), Some(w1 + b + w2)) == verdict_of(Some(d), Some(b)),
{
    lemma_label_key_ignores_surrounding_white_space(w1, d, w2);
    lemma_label_key_ignores_surrounding_white_space(w1, b, w2);
}

/// When the reply holds an object and its typed decoding is a VOICE decision
/// whose behavior field holds a behavior's label, the reply's verdict is
/// voiced with that behavior, whatever else the object holds.
pub proof fn lemma_typed_voice_reply_keeps_behavior(o: Seq<char>, d: Seq<char>, x: Behavior)
    requires
        label_key(d) == "voice"@ || label_key(d) == "speak"@ || label_key(d) == "speak_up"@,
    ensures
        reply_verdict(Some(o), Some((Some(d), Some(behavior_label(x))))) == (VoiceVerdict {
            voiced: true,
            behavior: Some(x),
            parse_failed: false,
        }),
{
    lemma_voice_keeps_named_behavior(d, x);
}

/// A reply without an object is the fallback verdict, whatever typed decoding
/// is given.
pub proof fn lemma_reply_without_object_falls_back(
    typed: Option<(Option<Seq<char>>, Option<Seq<char>>)>,
)
    ensures
        reply_verdict(None, typed) == (VoiceVerdict { voiced: false, behavior: None, parse_failed: true }),
{
}

// ------------------------------------------------------------------------- //
// Laws of object extraction
// ------------------------------------------------------------------------- //

/// The characters that steer the object scan: quotes, backslashes and braces.
pub open spec fn is_structural(c: char) -> bool {
    c == '"' || c == '\\' || c == '{' || c == '}'
}

/// `s` and `t` agree at every position from `i` on, except where both hold a
/// character that does not steer the scan.
pub open spec fn same_structure_from(s: Seq<char>, t: Seq<char>, i: int) -> bool {
    &&& s.len() == t.len()
    &&& forall|j: int|
        i <= j < s.len() ==> s[j] == t[j] || (!is_structural(#[trigger] s[j]) && !is_structural(
            t[j],
        ))
}

proof fn lemma_find_same_structure(s: Seq<char>, t: Seq<char>, i: int)
    requires
        0 <= i,
        same_structure_from(s, t, i),
    ensures
        find_open_brace(s, i) == find_open_brace(t, i),
    decreases s.len() - i,
{
    if i < s.len() {
        assert(s[i] == t[i] || (!is_structural(s[i]) && !is_structural(t[i])));
        lemma_find_same_structure(s, t, i + 1);
    }
}

proof fn lemma_scan_same_structure(
    s: Seq<char>,
    t: Seq<char>,
    i: int,
    depth: int,
    in_str: bool,
    esc: bool,
)
    requires
        0 <= i,
        same_structure_from(s, t, i),
    ensures
        scan_object_end(s, i, depth, in_str, esc) == scan_object_end(t, i, depth, in_str, esc),
    decreases s.len() - i,
{
    if i < s.len() {
        assert(s[i] == t[i] || (!is_structural(s[i]) && !is_structural(t[i])));
        lemma_scan_same_structure(s, t, i + 1, depth, true, false);
        lemma_scan_same_structure(s, t, i + 1, depth, true, true);
        lemma_scan_same_structure(s, t, i + 1, depth, false, esc);
        lemma_scan_same_structure(s, t, i + 1, depth, true, esc);
        lemma_scan_same_structure(s, t, i + 1, depth + 1, false, esc);
        lemma_scan_same_structure(s, t, i + 1, depth - 1, false, esc);
    }
}

/// Only quotes, backslashes and braces decide where the first object lies:
/// replacing any other characters (letters, digits, spaces, newlines, ...) by
/// other such characters finds an object in the same place, or none in both.
pub proof fn lemma_object_extraction_ignores_plain_chars(s: Seq<char>, t: Seq<char>)
    requires
        same_structure_from(s, t, 0),
    ensures
        json_object_in(s) is Some <==> json_object_in(t) is Some,
        json_object_in(s) is Some ==> exists|st: int, en: int|
            0 <= st <= en <= s.len() && json_object_in(s) == Some(s.subrange(st, en))
                && json_object_in(t) == Some(t.subrange(st, en)),
{
    lemma_find_same_structure(s, t, 0);
    match find_open_brace(s, 0) {
        Some(st) => {
            lemma_find_in_range(s, 0);
            lemma_scan_same_structure(s, t, st, 0, false, false);
            if let Some(e) = scan_object_end(s, st, 0, false, false) {
                lemma_scan_end_is_close_brace(s, st, 0, false, false);
                assert(0 <= st <= e + 1 <= s.len());
            }
        },
        None => {},
    }
}

proof fn lemma_find_in_range(s: Seq<char>, i: int)
    requires
        0 <= i,
    ensures
        find_open_brace(s, i) matches Some(p) ==> i <= p < s.len() && s[p] == '{',
    decreases s.len() - i,
{
    if i < s.len() && s[i] != '{' {
        lemma_find_in_range(s, i + 1);
    }
}

proof fn lemma_find_skips(s: Seq<char>, i: int, k: int)
    requires
        0 <= i <= k < s.len(),
        s[k] == '{',
        forall|j: int| i <= j < k ==> s[j] != '{',
    ensures
        find_open_brace(s, i) == Some(k),
    decreases k - i,
{
    if i < k {
        lemma_find_skips(s, i + 1, k);
    }
}

proof fn lemma_scan_skips_plain(s: Seq<char>, i: int, k: int, depth: int, esc: bool)
    requires
        0 <= i <= k <= s.len(),
        forall|j: int| i <= j < k ==> !is_structural(#[trigger] s[j]),
    ensures
        scan_object_end(s, i, depth, false, esc) == scan_object_end(s, k, depth, false, esc),
    decreases k - i,
{
    if i < k {
        lemma_scan_skips_plain(s, i + 1, k, depth, esc);
    }
}

/// A reply made of a prefix without `{`, then `{`, then text without quotes,
/// backslashes or braces (newlines and any other characters allowed), then
/// `}`, then anything, has that braced text as its first object.
pub proof fn lemma_plain_object_is_extracted(x: Seq<char>, m: Seq<char>, y: Seq<char>)
    requires
        forall|i: int| 0 <= i < x.len() ==> #[trigger] x[i] != '{',
        forall|i: int| 0 <= i < m.len() ==> !is_structural(#[trigger] m[i]),
    ensures
        json_object_in(x + (seq!['{'] + m + seq!['}']) + y) == Some(seq!['{'] + m + seq!['}']),
{
    let o = seq!['{'] + m + seq!['}'];
    let s = x + o + y;
    let st = x.len() as int;
    let en = st + 1 + m.len();
    assert(s[st] == '{');
    assert forall|j: int| 0 <= j < st implies s[j] != '{' by {
        assert(s[j] == x[j]);
    }
    lemma_find_skips(s, 0, st);
    assert forall|j: int| st + 1 <= j < en implies !is_structural(#[trigger] s[j]) by {
        assert(s[j] == m[j - st - 1]);
    }
    lemma_scan_skips_plain(s, st + 1, en, 1, false);
    assert(s[en] == '}');
    assert(scan_object_end(s, en, 1, false, false) == Some(en));
    assert(s.subrange(st, en + 1) =~= o);
}

} // verus!
