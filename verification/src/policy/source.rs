//! The bounded line-oriented policy source format.
//!
//! A source is UTF-8 text of at most 1 MiB. Lines end at `\n` (a `\r` before it is dropped)
//! and hold at most 4096 bytes. Each line is trimmed of Unicode white space; blank lines and
//! lines starting with `#` are skipped. `version=<text>` and `steps=<unsigned integer>` must
//! each appear exactly once; every `rule=<id>,<effect>` adds an unconstrained rule whose
//! effect is `permit` or `deny`, up to 4096 rules. The set read must then validate.
use vstd::prelude::*;
use vstd::std_specs::iter::IteratorSpec;

use crate::bytes::text_bytes;
use crate::policy::eval::{PolicySet, Rule, RuleConstraints};
use crate::policy::registry::{first_rule_fault, rule_fault, validate, ValidationFault};
use crate::policy::types::{PolicySourceError, RuleEffect};
use crate::text::utf8_text;

verus! {

broadcast use vstd::string::axiom_spec_iter, vstd::string::next_postcondition;

/// The largest source accepted, in bytes.
pub const MAX_POLICY_SOURCE_BYTES: usize = 1048576;

/// The longest line accepted, in bytes.
pub const MAX_POLICY_LINE_BYTES: usize = 4096;

/// The most rules a source may declare.
pub const MAX_POLICY_RULES: usize = 4096;

/// A source refusal as plain values.
pub enum SourceFault {
    TooLarge,
    InvalidUtf8,
    LineTooLarge,
    TooManyRules,
    InvalidDeclaration,
    InvalidInteger,
    InvalidEffect,
    Validation(ValidationFault),
}

impl View for PolicySourceError {
    type V = SourceFault;

    open spec fn view(&self) -> SourceFault {
        match self {
            PolicySourceError::TooLarge => SourceFault::TooLarge,
            PolicySourceError::InvalidUtf8 => SourceFault::InvalidUtf8,
            PolicySourceError::LineTooLarge => SourceFault::LineTooLarge,
            PolicySourceError::TooManyRules => SourceFault::TooManyRules,
            PolicySourceError::InvalidDeclaration => SourceFault::InvalidDeclaration,
            PolicySourceError::InvalidInteger => SourceFault::InvalidInteger,
            PolicySourceError::InvalidEffect => SourceFault::InvalidEffect,
            PolicySourceError::Validation(e) => SourceFault::Validation(e@),
        }
    }
}

/// What the lines read so far declare.
pub struct SourceState {
    pub version: Option<Seq<char>>,
    pub steps: Option<u64>,
    pub rules: Seq<(Seq<char>, RuleEffect)>,
}

/// Nothing declared yet.
pub open spec fn empty_state() -> SourceState {
    SourceState { version: None, steps: None, rules: Seq::empty() }
}

/// Unicode `White_Space`, the characters `str::trim` removes.
pub open spec fn is_white_space(c: char) -> bool {
    let u = c as u32;
    ||| 0x9 <= u <= 0xd
    ||| u == 0x20
    ||| u == 0x85
    ||| u == 0xa0
    ||| u == 0x1680
    ||| 0x2000 <= u <= 0x200a
    ||| u == 0x2028
    ||| u == 0x2029
    ||| u == 0x202f
    ||| u == 0x205f
    ||| u == 0x3000
}

/// A text without its leading white space.
pub open spec fn trim_start(s: Seq<char>) -> Seq<char>
    decreases s.len(),
{
    if s.len() > 0 && is_white_space(s[0]) {
        trim_start(s.drop_first())
    } else {
        s
    }
}

/// A text without its trailing white space.
pub open spec fn trim_end(s: Seq<char>) -> Seq<char>
    decreases s.len(),
{
    if s.len() > 0 && is_white_space(s.last()) {
        trim_end(s.drop_last())
    } else {
        s
    }
}

/// A text without leading or trailing white space.
pub open spec fn trimmed(s: Seq<char>) -> Seq<char> {
    trim_end(trim_start(s))
}

/// The position of the first `c` in `s`, or its length when there is none.
pub open spec fn first_index(s: Seq<char>, c: char) -> int
    decreases s.len(),
{
    if s.len() == 0 || s[0] == c {
        0
    } else {
        1 + first_index(s.drop_first(), c)
    }
}

/// Whether `s` begins with `p`.
pub open spec fn begins_with(s: Seq<char>, p: Seq<char>) -> bool {
    p.len() <= s.len() && s.take(p.len() as int) == p
}

/// `version=`
pub open spec fn version_key() -> Seq<char> {
    seq!['v', 'e', 'r', 's', 'i', 'o', 'n', '=']
}

/// `steps=`
pub open spec fn steps_key() -> Seq<char> {
    seq!['s', 't', 'e', 'p', 's', '=']
}

/// `rule=`
pub open spec fn rule_key() -> Seq<char> {
    seq!['r', 'u', 'l', 'e', '=']
}

/// `permit`
pub open spec fn permit_word() -> Seq<char> {
    seq!['p', 'e', 'r', 'm', 'i', 't']
}

/// `deny`
pub open spec fn deny_word() -> Seq<char> {
    seq!['d', 'e', 'n', 'y']
}

/// Whether every character is an ASCII digit.
pub open spec fn all_digits(s: Seq<char>) -> bool {
    forall|i: int| 0 <= i < s.len() ==> '0' <= #[trigger] s[i] <= '9'
}

/// The number a string of decimal digits denotes.
pub open spec fn digits_value(s: Seq<char>) -> nat
    decreases s.len(),
{
    if s.len() == 0 {
        0
    } else {
        digits_value(s.drop_last()) * 10 + ((s.last() as u32) - 48) as nat
    }
}

/// What `str::parse::<u64>` gives: an optional `+`, at least one digit, at most `u64::MAX`.
pub open spec fn parse_u64(s: Seq<char>) -> Option<u64> {
    let digits = if s.len() > 0 && s[0] == '+' {
        s.drop_first()
    } else {
        s
    };
    if digits.len() == 0 || !all_digits(digits) || digits_value(digits) > u64::MAX {
        None
    } else {
        Some(digits_value(digits) as u64)
    }
}

/// The declaration of one line, applied to what the lines before it declared.
pub open spec fn line_step(st: SourceState, raw: Seq<char>) -> Result<SourceState, SourceFault> {
    let l = trimmed(raw);
    if text_bytes(raw).len() > MAX_POLICY_LINE_BYTES {
        Err(SourceFault::LineTooLarge)
    } else if l.len() == 0 || l[0] == '#' {
        Ok(st)
    } else if begins_with(l, version_key()) {
        if st.version is Some {
            Err(SourceFault::InvalidDeclaration)
        } else {
            Ok(SourceState { version: Some(l.skip(8)), ..st })
        }
    } else if begins_with(l, steps_key()) {
        match parse_u64(l.skip(6)) {
            None => Err(SourceFault::InvalidInteger),
            Some(v) => if st.steps is Some {
                Err(SourceFault::InvalidDeclaration)
            } else {
                Ok(SourceState { steps: Some(v), ..st })
            },
        }
    } else if begins_with(l, rule_key()) {
        let value = l.skip(5);
        let comma = first_index(value, ',');
        if st.rules.len() >= MAX_POLICY_RULES {
            Err(SourceFault::TooManyRules)
        } else if comma == value.len() {
            Err(SourceFault::InvalidDeclaration)
        } else {
            let word = value.skip(comma + 1);
            if word == permit_word() {
                Ok(SourceState { rules: st.rules.push((value.take(comma), RuleEffect::Permit)), ..st })
            } else if word == deny_word() {
                Ok(SourceState { rules: st.rules.push((value.take(comma), RuleEffect::Deny)), ..st })
            } else {
                Err(SourceFault::InvalidEffect)
            }
        }
    } else {
        Err(SourceFault::InvalidDeclaration)
    }
}

/// A line without the `\r` of a `\r\n` ending.
pub open spec fn without_cr(s: Seq<char>) -> Seq<char> {
    if s.len() > 0 && s.last() == '\r' {
        s.drop_last()
    } else {
        s
    }
}

/// The first occurrence of a character lies within the text, or just past its end.
pub proof fn lemma_first_index_bounds(s: Seq<char>, c: char)
    ensures
        0 <= first_index(s, c) <= s.len(),
    decreases s.len(),
{
    if s.len() > 0 && s[0] != c {
        lemma_first_index_bounds(s.drop_first(), c);
    }
}

/// Every line of `t`, in order, applied to `st`; the first refused line decides.
pub open spec fn read_lines(t: Seq<char>, st: SourceState) -> Result<SourceState, SourceFault>
    decreases t.len(),
{
    if t.len() == 0 {
        Ok(st)
    } else {
        let k = first_index(t, '\n');
        proof {
            lemma_first_index_bounds(t, '\n');
        }
        if k < t.len() {
            match line_step(st, without_cr(t.take(k))) {
                Err(e) => Err(e),
                Ok(next) => read_lines(t.skip(k + 1), next),
            }
        } else {
            line_step(st, t)
        }
    }
}

/// The first rule among the first `upto` with an empty identifier or one used before it.
pub open spec fn first_id_fault(rules: Seq<(Seq<char>, RuleEffect)>, upto: int) -> Option<ValidationFault>
    decreases upto,
{
    if upto <= 0 {
        None
    } else {
        match first_id_fault(rules, upto - 1) {
            Some(f) => Some(f),
            None => {
                let id = rules[upto - 1].0;
                if id.len() == 0 {
                    Some(ValidationFault::EmptyRuleId)
                } else if exists|j: int| 0 <= j < upto - 1 && (#[trigger] rules[j]).0 == id {
                    Some(ValidationFault::DuplicateRuleId(id))
                } else {
                    None
                }
            },
        }
    }
}

/// Why a fully declared source does not validate.
pub open spec fn declared_fault(version: Seq<char>, steps: u64, rules: Seq<(Seq<char>, RuleEffect)>) -> Option<ValidationFault> {
    if version.len() == 0 {
        Some(ValidationFault::EmptyVersion)
    } else if steps == 0 {
        Some(ValidationFault::ZeroStepLimit)
    } else if rules.len() > steps {
        Some(ValidationFault::StepLimitTooSmall)
    } else {
        first_id_fault(rules, rules.len() as int)
    }
}

/// What a source declares, or why it is refused: the size bound, UTF-8, every line, both
/// declarations present, and validation, in that order.
pub open spec fn source_outcome(bytes: Seq<u8>) -> Result<SourceState, SourceFault> {
    if bytes.len() > MAX_POLICY_SOURCE_BYTES {
        Err(SourceFault::TooLarge)
    } else if !vstd::utf8::valid_utf8(bytes) {
        Err(SourceFault::InvalidUtf8)
    } else {
        match read_lines(vstd::utf8::decode_utf8(bytes), empty_state()) {
            Err(e) => Err(e),
            Ok(st) => if st.version is None || st.steps is None {
                Err(SourceFault::InvalidDeclaration)
            } else {
                match declared_fault(st.version.unwrap(), st.steps.unwrap(), st.rules) {
                    Some(f) => Err(SourceFault::Validation(f)),
                    None => Ok(st),
                }
            },
        }
    }
}

/// The identifiers and effects of rules.
pub open spec fn rule_summary(rules: Seq<Rule>) -> Seq<(Seq<char>, RuleEffect)> {
    rules.map_values(|r: Rule| (r.id@, r.effect))
}

/// Constraints that admit anything and need no approval.
pub open spec fn unconstrained(c: RuleConstraints) -> bool {
    &&& c.activity_types@.len() == 0
    &&& c.counterparties@.len() == 0
    &&& c.assets@.len() == 0
    &&& c.maximum_amount is None
    &&& c.maximum_cumulative_amount is None
    &&& c.maximum_cumulative_count is None
    &&& c.purposes@.len() == 0
    &&& c.capability_ids@.len() == 0
    &&& c.session_ids@.len() == 0
    &&& c.agents@.len() == 0
    &&& c.tenants@.len() == 0
    &&& c.sequence_window is None
    &&& !c.required_approval
}

/// The characters of a text, in order.
fn text_chars(text: &str) -> (r: Vec<char>)
    ensures
        r@ == text@,
{
    let mut out: Vec<char> = Vec::new();
    let mut it = text.chars();
    loop
        invariant_except_break
            out@ + it.remaining() == text@,
            it.decrease() is Some,
        ensures
            out@ == text@,
        decreases it.decrease()->0,
    {
        match it.next() {
            Some(c) => {
                out.push(c);
            },
            None => {
                break;
            },
        }
    }
    out
}

fn white_space(c: char) -> (r: bool)
    ensures
        r == is_white_space(c),
{
    let u = c as u32;
    (0x9 <= u && u <= 0xd) || u == 0x20 || u == 0x85 || u == 0xa0 || u == 0x1680 || (0x2000 <= u
        && u <= 0x200a) || u == 0x2028 || u == 0x2029 || u == 0x202f || u == 0x205f || u == 0x3000
}

fn chars_range(t: &Vec<char>, lo: usize, hi: usize) -> (r: Vec<char>)
    requires
        lo <= hi <= t@.len(),
    ensures
        r@ == t@.subrange(lo as int, hi as int),
{
    let mut out: Vec<char> = Vec::new();
    let mut i: usize = lo;
    while i < hi
        invariant
            lo <= i <= hi <= t@.len(),
            out@ == t@.subrange(lo as int, i as int),
        decreases hi - i,
    {
        out.push(t[i]);
        assert(t@.subrange(lo as int, i + 1) =~= t@.subrange(lo as int, i as int).push(t@[i as int]));
        i = i + 1;
    }
    out
}

proof fn lemma_trim_start_skip(s: Seq<char>, i: int)
    requires
        0 <= i <= s.len(),
        forall|q: int| 0 <= q < i ==> is_white_space(#[trigger] s[q]),
    ensures
        trim_start(s) == trim_start(s.skip(i)),
    decreases i,
{
    if i > 0 {
        assert(s.drop_first().skip(i - 1) =~= s.skip(i));
        lemma_trim_start_skip(s.drop_first(), i - 1);
    } else {
        assert(s.skip(0) =~= s);
    }
}

proof fn lemma_trim_end_take(s: Seq<char>, h: int)
    requires
        0 <= h <= s.len(),
        forall|q: int| h <= q < s.len() ==> is_white_space(#[trigger] s[q]),
    ensures
        trim_end(s) == trim_end(s.take(h)),
    decreases s.len() - h,
{
    if h < s.len() {
        assert(s.drop_last().take(h) =~= s.take(h));
        lemma_trim_end_take(s.drop_last(), h);
    } else {
        assert(s.take(h) =~= s);
    }
}

fn trim_chars(l: &Vec<char>) -> (r: Vec<char>)
    ensures
        r@ == trimmed(l@),
{
    let mut lo: usize = 0;
    while lo < l.len() && white_space(l[lo])
        invariant
            lo <= l@.len(),
            forall|q: int| 0 <= q < lo ==> is_white_space(#[trigger] l@[q]),
        decreases l@.len() - lo,
    {
        lo = lo + 1;
    }
    proof {
        lemma_trim_start_skip(l@, lo as int);
    }
    let ghost rest = l@.skip(lo as int);
    assert(trim_start(rest) == rest);
    let mut hi: usize = l.len();
    while hi > lo && white_space(l[hi - 1])
        invariant
            lo <= hi <= l@.len(),
            rest == l@.skip(lo as int),
            forall|q: int| hi - lo <= q < rest.len() ==> is_white_space(#[trigger] rest[q]),
        decreases hi - lo,
    {
        assert(rest[hi - 1 - lo] == l@[hi - 1]);
        hi = hi - 1;
    }
    proof {
        lemma_trim_end_take(rest, (hi - lo) as int);
        assert(rest.take((hi - lo) as int) =~= l@.subrange(lo as int, hi as int));
    }
    chars_range(l, lo, hi)
}

fn chars_equal(a: &Vec<char>, b: &Vec<char>) -> (r: bool)
    ensures
        r == (a@ == b@),
{
    if a.len() != b.len() {
        return false;
    }
    let mut i: usize = 0;
    while i < a.len()
        invariant
            i <= a@.len(),
            a@.len() == b@.len(),
            forall|q: int| 0 <= q < i ==> a@[q] == b@[q],
        decreases a@.len() - i,
    {
        if a[i] != b[i] {
            return false;
        }
        i = i + 1;
    }
    assert(a@ =~= b@);
    true
}

fn chars_begin_with(s: &Vec<char>, p: &Vec<char>) -> (r: bool)
    ensures
        r == begins_with(s@, p@),
{
    if p.len() > s.len() {
        return false;
    }
    let mut i: usize = 0;
    while i < p.len()
        invariant
            i <= p@.len() <= s@.len(),
            forall|q: int| 0 <= q < i ==> s@[q] == p@[q],
        decreases p@.len() - i,
    {
        if s[i] != p[i] {
            assert(s@.take(p@.len() as int)[i as int] != p@[i as int]);
            return false;
        }
        i = i + 1;
    }
    assert(s@.take(p@.len() as int) =~= p@);
    true
}

proof fn lemma_first_index_step(s: Seq<char>, i: int, c: char)
    requires
        0 <= i < s.len(),
        s[i] != c,
    ensures
        first_index(s.skip(i), c) == 1 + first_index(s.skip(i + 1), c),
{
    assert(s.skip(i).drop_first() =~= s.skip(i + 1));
}

fn find_char(s: &Vec<char>, from: usize, c: char) -> (r: usize)
    requires
        from <= s@.len(),
    ensures
        from <= r <= s@.len(),
        r == from + first_index(s@.skip(from as int), c),
        r < s@.len() ==> s@[r as int] == c,
        forall|q: int| from <= q < r ==> #[trigger] s@[q] != c,
{
    let mut j: usize = from;
    while j < s.len() && s[j] != c
        invariant
            from <= j <= s@.len(),
            first_index(s@.skip(from as int), c) == (j - from) + first_index(s@.skip(j as int), c),
            forall|q: int| from <= q < j ==> #[trigger] s@[q] != c,
        decreases s@.len() - j,
    {
        proof {
            lemma_first_index_step(s@, j as int, c);
        }
        j = j + 1;
    }
    j
}

fn utf8_length(l: &Vec<char>) -> (r: usize)
    requires
        l@.len() <= MAX_POLICY_SOURCE_BYTES,
    ensures
        r == text_bytes(l@).len(),
{
    let mut total: usize = 0;
    let mut q: usize = 0;
    assert(l@.skip(0) =~= l@);
    while q < l.len()
        invariant
            q <= l@.len() <= MAX_POLICY_SOURCE_BYTES,
            total <= 4 * q,
            total + text_bytes(l@.skip(q as int)).len() == text_bytes(l@).len(),
        decreases l@.len() - q,
    {
        let c = l[q];
        proof {
            assert(l@.skip(q as int).drop_first() =~= l@.skip(q + 1));
            assert(l@.skip(q as int)[0] == c);
            vstd::utf8::char_is_scalar(c);
        }
        let u = c as u32;
        let width: usize = if u < 0x80 {
            1
        } else if u < 0x800 {
            2
        } else if u < 0x10000 {
            3
        } else {
            4
        };
        total = total + width;
        q = q + 1;
    }
    proof {
        assert(l@.skip(q as int).len() == 0);
    }
    total
}

proof fn lemma_digits_monotone(s: Seq<char>, i: int, j: int)
    requires
        0 <= i <= j <= s.len(),
    ensures
        digits_value(s.take(i)) <= digits_value(s.take(j)),
    decreases j - i,
{
    if i < j {
        lemma_digits_monotone(s, i, j - 1);
        assert(s.take(j).drop_last() =~= s.take(j - 1));
    }
}

fn parse_u64_chars(s: &Vec<char>) -> (r: Option<u64>)
    ensures
        r == parse_u64(s@),
{
    let start: usize = if s.len() > 0 && s[0] == '+' {
        1
    } else {
        0
    };
    let ghost digits = if s@.len() > 0 && s@[0] == '+' {
        s@.drop_first()
    } else {
        s@
    };
    assert(digits =~= s@.skip(start as int));
    if start == s.len() {
        return None;
    }
    let mut value: u64 = 0;
    let mut i: usize = start;
    while i < s.len()
        invariant
            start <= i <= s@.len(),
            start < s@.len(),
            digits == s@.skip(start as int),
            digits == (if s@.len() > 0 && s@[0] == '+' {
                s@.drop_first()
            } else {
                s@
            }),
            all_digits(digits.take(i - start)),
            value == digits_value(digits.take(i - start)),
        decreases s@.len() - i,
    {
        let c = s[i];
        assert(digits[i - start] == c);
        assert(digits.take(i - start + 1).drop_last() =~= digits.take(i - start));
        if c < '0' || c > '9' {
            assert(!('0' <= digits[(i - start) as int] <= '9'));
            assert(!all_digits(digits));
            return None;
        }
        assert(48 <= (c as u32) <= 57);
        let d = (c as u32 - 48) as u64;
        if value > 1844674407370955161 || (value == 1844674407370955161 && d > 5) {
            proof {
                let k = i - start;
                assert(digits.take(k + 1).last() == c);
                assert(digits_value(digits.take(k + 1)) > u64::MAX);
                lemma_digits_monotone(digits, k + 1, digits.len() as int);
                assert(digits.take(digits.len() as int) =~= digits);
            }
            return None;
        }
        proof {
            let k = i - start;
            assert(digits.take(k + 1).last() == c);
            assert forall|q: int| 0 <= q < k + 1 implies '0' <= #[trigger] digits.take(k + 1)[q] <= '9' by {
                if q < k {
                    assert(digits.take(k + 1)[q] == digits.take(k)[q]);
                }
            }
        }
        value = value * 10 + d;
        i = i + 1;
    }
    assert(digits.take(digits.len() as int) =~= digits);
    Some(value)
}

fn chars_string(v: &Vec<char>) -> (r: String)
    ensures
        r@ == v@,
{
    let mut out = String::new();
    let mut i: usize = 0;
    while i < v.len()
        invariant
            i <= v@.len(),
            out@ == v@.take(i as int),
        decreases v@.len() - i,
    {
        out.push(v[i]);
        assert(v@.take(i + 1) =~= v@.take(i as int).push(v@[i as int]));
        i = i + 1;
    }
    assert(v@.take(i as int) =~= v@);
    out
}

/// What the exec declarations hold, as plain values.
pub open spec fn state_of(version: Option<String>, steps: Option<u64>, rules: Seq<Rule>) -> SourceState {
    SourceState {
        version: match version {
            Some(v) => Some(v@),
            None => None,
        },
        steps,
        rules: rule_summary(rules),
    }
}

/// Every rule is unconstrained.
pub open spec fn all_unconstrained(rules: Seq<Rule>) -> bool {
    forall|i: int| 0 <= i < rules.len() ==> unconstrained(#[trigger] rules[i].constraints)
}

fn key_chars(which: u8) -> (r: Vec<char>)
    ensures
        which == 0 ==> r@ == version_key(),
        which == 1 ==> r@ == steps_key(),
        which == 2 ==> r@ == rule_key(),
        which == 3 ==> r@ == permit_word(),
        which >= 4 ==> r@ == deny_word(),
{
    let r = if which == 0 {
        vec!['v', 'e', 'r', 's', 'i', 'o', 'n', '=']
    } else if which == 1 {
        vec!['s', 't', 'e', 'p', 's', '=']
    } else if which == 2 {
        vec!['r', 'u', 'l', 'e', '=']
    } else if which == 3 {
        vec!['p', 'e', 'r', 'm', 'i', 't']
    } else {
        vec!['d', 'e', 'n', 'y']
    };
    assert(which == 0 ==> r@ =~= version_key());
    assert(which == 1 ==> r@ =~= steps_key());
    assert(which == 2 ==> r@ =~= rule_key());
    assert(which == 3 ==> r@ =~= permit_word());
    assert(which >= 4 ==> r@ =~= deny_word());
    r
}

fn apply_line(
    version: &mut Option<String>,
    steps: &mut Option<u64>,
    rules: &mut Vec<Rule>,
    raw: &Vec<char>,
) -> (r: Result<(), PolicySourceError>)
    requires
        raw@.len() <= MAX_POLICY_SOURCE_BYTES,
        all_unconstrained(old(rules)@),
    ensures
        all_unconstrained(final(rules)@),
        match line_step(state_of(*old(version), *old(steps), old(rules)@), raw@) {
            Ok(next) => r is Ok && state_of(*final(version), *final(steps), final(rules)@) == next,
            Err(e) => r matches Err(x) && x@ == e,
        },
{
    let ghost before = state_of(*version, *steps, rules@);
    if utf8_length(raw) > MAX_POLICY_LINE_BYTES {
        return Err(PolicySourceError::LineTooLarge);
    }
    let l = trim_chars(raw);
    if l.len() == 0 || l[0] == '#' {
        return Ok(());
    }
    if chars_begin_with(&l, &key_chars(0)) {
        if version.is_some() {
            return Err(PolicySourceError::InvalidDeclaration);
        }
        let value = chars_range(&l, 8, l.len());
        assert(value@ =~= l@.skip(8));
        *version = Some(chars_string(&value));
        return Ok(());
    }
    if chars_begin_with(&l, &key_chars(1)) {
        let value = chars_range(&l, 6, l.len());
        assert(value@ =~= l@.skip(6));
        let parsed = match parse_u64_chars(&value) {
            None => {
                return Err(PolicySourceError::InvalidInteger);
            },
            Some(v) => v,
        };
        if steps.is_some() {
            return Err(PolicySourceError::InvalidDeclaration);
        }
        *steps = Some(parsed);
        return Ok(());
    }
    if chars_begin_with(&l, &key_chars(2)) {
        let value = chars_range(&l, 5, l.len());
        assert(value@ =~= l@.skip(5));
        let comma = find_char(&value, 0, ',');
        assert(value@.skip(0) =~= value@);
        if rules.len() >= MAX_POLICY_RULES {
            return Err(PolicySourceError::TooManyRules);
        }
        if comma == value.len() {
            return Err(PolicySourceError::InvalidDeclaration);
        }
        let word = chars_range(&value, comma + 1, value.len());
        assert(word@ =~= value@.skip(comma + 1));
        let effect = if chars_equal(&word, &key_chars(3)) {
            RuleEffect::Permit
        } else if chars_equal(&word, &key_chars(4)) {
            RuleEffect::Deny
        } else {
            return Err(PolicySourceError::InvalidEffect);
        };
        let id = chars_range(&value, 0, comma);
        assert(id@ =~= value@.take(comma as int));
        let rule = Rule { id: chars_string(&id), effect, constraints: RuleConstraints::unconstrained() };
        let ghost old_rules = rules@;
        rules.push(rule);
        proof {
            assert(rule_summary(rules@) =~= rule_summary(old_rules).push((id@, effect)));
            assert forall|i: int| 0 <= i < rules@.len() implies unconstrained(#[trigger] rules@[i].constraints) by {
                if i < old_rules.len() {
                    assert(rules@[i] == old_rules[i]);
                }
            }
        }
        return Ok(());
    }
    Err(PolicySourceError::InvalidDeclaration)
}

proof fn lemma_chars_within_bytes(s: Seq<char>)
    ensures
        s.len() <= text_bytes(s).len(),
    decreases s.len(),
{
    if s.len() > 0 {
        lemma_chars_within_bytes(s.drop_first());
    }
}

proof fn lemma_read_step(t: Seq<char>, i: int, k: int, st: SourceState)
    requires
        0 <= i < t.len(),
        i <= k <= t.len(),
        k == i + first_index(t.skip(i), '\n'),
    ensures
        k < t.len() ==> read_lines(t.skip(i), st) == match line_step(st, without_cr(t.subrange(i, k))) {
            Err(e) => Err(e),
            Ok(next) => read_lines(t.skip(k + 1), next),
        },
        k == t.len() ==> read_lines(t.skip(i), st) == line_step(st, t.subrange(i, k)),
{
    let rest = t.skip(i);
    lemma_first_index_bounds(rest, '\n');
    assert(rest.take(k - i) =~= t.subrange(i, k));
    if k < t.len() {
        assert(rest.skip(k - i + 1) =~= t.skip(k + 1));
    }
    if k == t.len() {
        assert(rest =~= t.subrange(i, k));
    }
}

proof fn lemma_rule_faults(rules: Seq<Rule>, upto: int)
    requires
        0 <= upto <= rules.len(),
        all_unconstrained(rules),
    ensures
        first_rule_fault(rules, upto) == first_id_fault(rule_summary(rules), upto),
    decreases upto,
{
    if upto > 0 {
        lemma_rule_faults(rules, upto - 1);
        let k = upto - 1;
        let summary = rule_summary(rules);
        assert(summary[k] == (rules[k].id@, rules[k].effect));
        assert(unconstrained(rules[k].constraints));
        if exists|j: int| 0 <= j < k && (#[trigger] rules[j]).id@ == rules[k].id@ {
            let j = choose|j: int| 0 <= j < k && (#[trigger] rules[j]).id@ == rules[k].id@;
            assert(summary[j].0 == summary[k].0);
        }
        if exists|j: int| 0 <= j < k && (#[trigger] summary[j]).0 == summary[k].0 {
            let j = choose|j: int| 0 <= j < k && (#[trigger] summary[j]).0 == summary[k].0;
            assert(rules[j].id@ == rules[k].id@);
        }
        assert(rule_fault(rules, k) == if rules[k].id@.len() == 0 {
            Some(ValidationFault::EmptyRuleId)
        } else if exists|j: int| 0 <= j < k && (#[trigger] summary[j]).0 == summary[k].0 {
            Some(ValidationFault::DuplicateRuleId(rules[k].id@))
        } else {
            None::<ValidationFault>
        });
    }
}

/// Loads a bounded line-oriented policy source without ambient state.
///
/// # Errors
///
/// Returns `TooLarge`, `InvalidUtf8`, `LineTooLarge` or `TooManyRules` on the bounds,
/// `InvalidDeclaration` for an unknown, repeated or absent `version=`/`steps=` or a
/// comma-less `rule=`, `InvalidInteger`, `InvalidEffect`, or `Validation` on the set.
pub fn load_policy_source(source: &[u8]) -> (r: Result<PolicySet, PolicySourceError>)
    ensures
        match r {
            Ok(p) => {
                &&& source_outcome(source@) matches Ok(st)
                &&& st.version == Some(p.version@)
                &&& st.steps == Some(p.evaluation_step_limit)
                &&& st.rules == rule_summary(p.rules@)
                &&& all_unconstrained(p.rules@)
            },
            Err(e) => source_outcome(source@) == Err::<SourceState, SourceFault>(e@),
        },
{
    if source.len() > MAX_POLICY_SOURCE_BYTES {
        return Err(PolicySourceError::TooLarge);
    }
    let text = match utf8_text(source) {
        None => {
            return Err(PolicySourceError::InvalidUtf8);
        },
        Some(text) => text,
    };
    let t = text_chars(text.as_str());
    proof {
        vstd::utf8::encode_utf8_decode_utf8(text@);
        lemma_chars_within_bytes(text@);
    }
    let ghost whole = t@;
    assert(vstd::utf8::decode_utf8(source@) == whole);
    let mut version: Option<String> = None;
    let mut steps: Option<u64> = None;
    let mut rules: Vec<Rule> = Vec::new();
    let mut i: usize = 0;
    assert(whole.skip(0) =~= whole);
    assert(rule_summary(rules@) =~= Seq::<(Seq<char>, RuleEffect)>::empty());
    while i < t.len()
        invariant
            i <= t@.len() <= MAX_POLICY_SOURCE_BYTES,
            whole == t@,
            source@.len() <= MAX_POLICY_SOURCE_BYTES,
            vstd::utf8::valid_utf8(source@),
            vstd::utf8::decode_utf8(source@) == whole,
            all_unconstrained(rules@),
            read_lines(whole, empty_state()) == read_lines(whole.skip(i as int), state_of(version, steps, rules@)),
        decreases t@.len() - i,
    {
        let k = find_char(&t, i, '\n');
        let ghost st = state_of(version, steps, rules@);
        proof {
            lemma_read_step(whole, i as int, k as int, st);
        }
        let mut raw = chars_range(&t, i, k);
        if k < t.len() && raw.len() > 0 && raw[raw.len() - 1] == '\r' {
            raw.pop();
            assert(raw@ =~= without_cr(t@.subrange(i as int, k as int)));
        }
        match apply_line(&mut version, &mut steps, &mut rules, &raw) {
            Err(e) => {
                return Err(e);
            },
            Ok(()) => {},
        }
        if k < t.len() {
            i = k + 1;
        } else {
            i = t.len();
            assert(whole.skip(i as int).len() == 0);
        }
    }
    let (v, n) = match (version, steps) {
        (Some(v), Some(n)) => (v, n),
        _ => {
            return Err(PolicySourceError::InvalidDeclaration);
        },
    };
    let policy = PolicySet { version: v, rules, evaluation_step_limit: n };
    proof {
        lemma_rule_faults(policy.rules@, policy.rules@.len() as int);
    }
    match validate(&policy) {
        Err(e) => Err(PolicySourceError::Validation(e)),
        Ok(()) => Ok(policy),
    }
}

} // verus!
