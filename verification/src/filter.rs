//! Which events are logged.

use vstd::prelude::*;
use vstd::string::StrSliceExecFns;
#[allow(unused_imports)]
use vstd::utf8::{
    char_is_scalar, encode_scalar, encode_utf8, encode_utf8_first_scalar,
    encode_utf8_valid_utf8, is_char_boundary, pop_first_scalar,
};

use tracing_subscriber::filter::{EnvFilter, ParseError};

verus! {

/// `tracing_subscriber::filter::EnvFilter`: what a list of directives lets through.
#[verifier::external_type_specification]
#[verifier::external_body]
pub struct ExEnvFilter(EnvFilter);

/// `tracing_subscriber::filter::ParseError`: why a list of directives is none.
#[verifier::external_type_specification]
#[verifier::external_body]
pub struct ExParseError(ParseError);

/// What the environment says of the filter.
#[derive(Debug)]
pub enum FilterVariable {
    /// The variable holds these directives.
    Directives(String),
    /// There is no such variable.
    NotPresent,
    /// The variable does not hold text.
    NotUnicode,
}

/// Why the filter of the environment is not used.
#[derive(Debug)]
pub enum FilterProblem {
    /// Its directives cannot be parsed.
    Invalid(ParseError),
    /// It is not text.
    NotUnicode,
}

/// Why logging is not as asked for.
#[derive(Debug)]
pub enum TracingError {
    /// It could not be set up.
    NotInstalled,
    /// It is set up with the default filter, because of this.
    Filter(FilterProblem),
}

/// What `EnvFilter::builder().parse` returns for these directives.
pub uninterp spec fn parsed_filter(directives: Seq<char>) -> Result<EnvFilter, ParseError>;

/// The directives of the filter that is used where the environment names none:
/// everything of the reflector, and what matters of the rest.
pub open spec fn default_directives() -> Seq<char> {
    "INFO,mdns_reflector=TRACE"@
}

/// The filter is the one that the default directives make.
pub open spec fn is_default(filter: EnvFilter) -> bool {
    parsed_filter(default_directives()) == Ok::<EnvFilter, ParseError>(filter)
}

/// The character has the Unicode property `White_Space`.
pub open spec fn is_white_space(c: char) -> bool {
    ||| '\u{9}' <= c <= '\u{d}'
    ||| c == ' '
    ||| c == '\u{85}'
    ||| c == '\u{a0}'
    ||| c == '\u{1680}'
    ||| '\u{2000}' <= c <= '\u{200a}'
    ||| c == '\u{2028}'
    ||| c == '\u{2029}'
    ||| c == '\u{202f}'
    ||| c == '\u{205f}'
    ||| c == '\u{3000}'
}

/// How many bytes the character takes in UTF-8.
pub open spec fn width(c: char) -> nat {
    if c <= '\u{7f}' {
        1
    } else if c <= '\u{7ff}' {
        2
    } else if c <= '\u{ffff}' {
        3
    } else {
        4
    }
}

/// How many bytes the text takes in UTF-8.
pub open spec fn byte_len(text: Seq<char>) -> nat
    decreases text.len(),
{
    if text.len() == 0 {
        0
    } else {
        width(text[0]) + byte_len(text.drop_first())
    }
}

/// The first index from `i` on that does not hold white space.
pub open spec fn indent_end(text: Seq<char>, i: int) -> int
    decreases text.len() - i,
{
    if i < text.len() && is_white_space(text[i]) {
        indent_end(text, i + 1)
    } else {
        i
    }
}

/// The first index from `i` on that holds one of the two characters, or the end of
/// the text.
pub open spec fn first_of(text: Seq<char>, a: char, b: char, i: int) -> int
    decreases text.len() - i,
{
    if i < text.len() && text[i] != a && text[i] != b {
        first_of(text, a, b, i + 1)
    } else {
        i
    }
}

/// The parser can cut the directive for index `k`. It counts from behind the
/// indentation but cuts from the start, so it cuts as many bytes before index `k` as
/// the indentation takes, and a character has to begin there.
pub open spec fn can_cut(directive: Seq<char>, k: int) -> bool {
    exists|j: int|
        0 <= j <= k && byte_len(#[trigger] directive.subrange(j, k)) == byte_len(
            directive.take(indent_end(directive, 0)),
        )
}

/// From index `k` on, behind the span, the parser can cut out the level, if one comes.
pub open spec fn level_is_cut_well(directive: Seq<char>, k: int) -> bool {
    k < directive.len() && directive[k] == '=' ==> can_cut(directive, k + 1)
}

/// From index `k` on, where a field begins, the parser can cut out what it cuts out.
/// Whether it accepts the field and goes on is known from the directive up to the end
/// of the span.
pub open spec fn field_is_cut_well(directive: Seq<char>, k: int) -> bool {
    let end: int = first_of(directive, '}', '}', k);
    end < directive.len() ==> {
        &&& can_cut(directive, k)
        &&& can_cut(directive, end)
        &&& end + 1 < directive.len() && directive[end + 1] == ']' && parsed_filter(
            directive.take(end + 2),
        ) is Ok ==> level_is_cut_well(directive, end + 2)
    }
}

/// From index `k` on, where a span begins, the parser can cut out what it cuts out.
pub open spec fn span_is_cut_well(directive: Seq<char>, k: int) -> bool {
    let end: int = first_of(directive, ']', '{', k);
    end < directive.len() ==> {
        &&& can_cut(directive, k)
        &&& can_cut(directive, end)
        &&& if directive[end] == ']' {
            level_is_cut_well(directive, end + 1)
        } else {
            field_is_cut_well(directive, end + 1)
        }
    }
}

/// From index `k` on, behind the first character of a target or level, the parser can
/// cut out what it cuts out.
pub open spec fn target_is_cut_well(directive: Seq<char>, k: int) -> bool {
    let end: int = first_of(directive, '=', '[', k);
    end < directive.len() ==> {
        &&& can_cut(directive, end)
        &&& if directive[end] == '=' {
            can_cut(directive, end + 1)
        } else {
            span_is_cut_well(directive, end + 1)
        }
    }
}

/// The parser cuts this directive, which holds no comma, nowhere within a character.
/// It gives up at once if no directive can begin with the first character, which is
/// known from the directive up to there.
pub open spec fn is_cut_well(directive: Seq<char>) -> bool {
    let start: int = indent_end(directive, 0);
    start < directive.len() ==> if directive[start] == '[' {
        span_is_cut_well(directive, start + 1)
    } else {
        parsed_filter(directive.take(start + 1)) is Ok ==> target_is_cut_well(
            directive,
            start + 1,
        )
    }
}

/// From index `i` on, where a directive begins, the parser cuts nowhere within a
/// character. Commas separate directives, and the parser gives up after the first that
/// it does not accept.
pub open spec fn is_sliceable_from(directives: Seq<char>, i: int) -> bool
    decreases directives.len() - i,
{
    let end: int = first_of(directives, ',', ',', i);
    let directive: Seq<char> = directives.subrange(i, end);
    &&& is_cut_well(directive)
    &&& i <= end < directives.len() && parsed_filter(directive) is Ok ==> is_sliceable_from(
        directives,
        end + 1,
    )
}

/// The parser cuts these directives nowhere within a character.
pub open spec fn is_sliceable(directives: Seq<char>) -> bool {
    is_sliceable_from(directives, 0)
}

/// The filter to use and the problem to report are as the variable says: its directives
/// if they can be parsed, and the default filter otherwise.
pub open spec fn is_choice(
    variable: FilterVariable,
    chosen: (EnvFilter, Option<FilterProblem>),
) -> bool {
    match variable {
        FilterVariable::Directives(directives) => match parsed_filter(directives@) {
            Ok(filter) => chosen == (filter, None::<FilterProblem>),
            Err(error) => is_default(chosen.0) && chosen.1 == Some(FilterProblem::Invalid(error)),
        },
        FilterVariable::NotPresent => is_default(chosen.0) && chosen.1 == None::<FilterProblem>,
        FilterVariable::NotUnicode => is_default(chosen.0) && chosen.1 == Some(
            FilterProblem::NotUnicode,
        ),
    }
}

/// The parser takes what the variable holds without a panic.
pub open spec fn is_usable(variable: FilterVariable) -> bool {
    variable matches FilterVariable::Directives(directives) ==> is_sliceable(directives@)
}

/// What setting up the log comes to.
pub open spec fn tracing_outcome(
    installed: bool,
    problem: Option<FilterProblem>,
) -> Result<(), TracingError> {
    if !installed {
        Err(TracingError::NotInstalled)
    } else {
        match problem {
            Some(problem) => Err(TracingError::Filter(problem)),
            None => Ok(()),
        }
    }
}

/// `EnvFilter::builder().parse`, of which nothing is claimed but that its result
/// depends on the directives alone, and that it accepts the default directives: a
/// level, then a target of letters and underscores with a level.
///
/// The parser trims a directive to find where its parts end, but cuts the parts out
/// of the untrimmed one. If the directive is indented, a cut may then fall within a
/// character, which is a panic; `requires` leaves out these directives and no others.
#[verifier::external_body]
fn parse_filter(directives: &str) -> (parsed: Result<EnvFilter, ParseError>)
    requires
        is_sliceable(directives@),
    ensures
        parsed == parsed_filter(directives@),
        directives@ == default_directives() ==> parsed is Ok,
{
    EnvFilter::builder().parse(directives)
}

/// Whether the character is white space.
fn white_space(c: char) -> (answer: bool)
    ensures
        answer == is_white_space(c),
{
    match c {
        '\u{9}'..='\u{d}' => true,
        '\u{2000}'..='\u{200a}' => true,
        ' ' | '\u{85}' | '\u{a0}' | '\u{1680}' => true,
        '\u{2028}' | '\u{2029}' | '\u{202f}' | '\u{205f}' | '\u{3000}' => true,
        _ => false,
    }
}

/// The characters of a text.
fn chars_of(text: &str) -> (list: Vec<char>)
    ensures
        list@ == text@,
{
    let mut list: Vec<char> = Vec::new();
    for c in chars: text.chars()
        invariant
            chars.seq() == text@,
            list@ == text@.take(chars.index() as int),
    {
        let ghost at: int = chars.index() as int;
        list.push(c);
        assert(list@ =~= text@.take(at + 1));
    }
    assert(text@.take(text@.len() as int) =~= text@);
    list
}

/// The first index that does not hold white space.
fn skip_indent(text: &Vec<char>) -> (end: usize)
    ensures
        end == indent_end(text@, 0),
        end <= text.len(),
{
    let mut i: usize = 0;
    while i < text.len() && white_space(text[i])
        invariant
            i <= text.len(),
            indent_end(text@, 0) == indent_end(text@, i as int),
        decreases text.len() - i,
    {
        i += 1;
    }
    i
}

/// The first index from `start` on that holds one of the two characters.
fn find_first(text: &Vec<char>, a: char, b: char, start: usize) -> (at: usize)
    requires
        start <= text.len(),
    ensures
        at == first_of(text@, a, b, start as int),
        start <= at <= text.len(),
{
    let mut i: usize = start;
    while i < text.len() && text[i] != a && text[i] != b
        invariant
            start <= i <= text.len(),
            first_of(text@, a, b, start as int) == first_of(text@, a, b, i as int),
        decreases text.len() - i,
    {
        i += 1;
    }
    i
}

/// How many bytes the character takes.
fn width_of(c: char) -> (bytes: u128)
    ensures
        bytes == width(c),
{
    if c <= '\u{7f}' {
        1
    } else if c <= '\u{7ff}' {
        2
    } else if c <= '\u{ffff}' {
        3
    } else {
        4
    }
}

/// How many bytes the first `end` characters take.
fn bytes_before(text: &Vec<char>, end: usize) -> (bytes: u128)
    requires
        end <= text.len(),
    ensures
        bytes == byte_len(text@.take(end as int)),
{
    let mut i: usize = end;
    let mut bytes: u128 = 0;
    while i > 0
        invariant
            i <= end <= text.len(),
            bytes == byte_len(text@.subrange(i as int, end as int)),
            bytes <= 4 * (end - i),
        decreases i,
    {
        i -= 1;
        proof {
            lemma_byte_len_step(text@, i as int, end as int);
        }
        bytes += width_of(text[i]);
    }
    assert(text@.subrange(0, end as int) =~= text@.take(end as int));
    bytes
}

/// Whether the parser can cut the directive for index `k`, given how many bytes its
/// indentation takes.
fn cuttable(directive: &Vec<char>, indent: u128, k: usize) -> (answer: bool)
    requires
        k <= directive.len(),
        indent == byte_len(directive@.take(indent_end(directive@, 0))),
    ensures
        answer == can_cut(directive@, k as int),
{
    let mut i: usize = k;
    let mut bytes: u128 = 0;
    assert(directive@.subrange(k as int, k as int) =~= Seq::empty());
    while i > 0 && bytes < indent
        invariant
            i <= k <= directive.len(),
            bytes == byte_len(directive@.subrange(i as int, k as int)),
            bytes <= 4 * (k - i),
            forall|j: int|
                i < j <= k ==> byte_len(#[trigger] directive@.subrange(j, k as int)) < indent,
        decreases i,
    {
        i -= 1;
        proof {
            lemma_byte_len_step(directive@, i as int, k as int);
        }
        bytes += width_of(directive[i]);
    }
    proof {
        assert forall|j: int| 0 <= j < i implies byte_len(
            #[trigger] directive@.subrange(j, k as int),
        ) > bytes by {
            lemma_byte_len_grows(directive@, j, i as int, k as int);
        }
        if bytes == indent {
            assert(can_cut(directive@, k as int));
        }
    }
    bytes == indent
}

/// Whether the parser accepts the first `end` characters of the directive.
fn accepts_prefix(directive: &str, end: usize) -> (answer: bool)
    requires
        end <= directive@.len(),
        is_sliceable(directive@.take(end as int)),
    ensures
        answer == (parsed_filter(directive@.take(end as int)) is Ok),
{
    let prefix: &str = directive.substring_char(0, end);
    assert(prefix@ =~= directive@.take(end as int));
    match parse_filter(prefix) {
        Ok(_) => true,
        Err(_) => false,
    }
}

/// Whether the parser can cut out the level.
fn level_cuttable(directive: &Vec<char>, indent: u128, k: usize) -> (answer: bool)
    requires
        indent == byte_len(directive@.take(indent_end(directive@, 0))),
    ensures
        answer == level_is_cut_well(directive@, k as int),
{
    k >= directive.len() || directive[k] != '=' || cuttable(directive, indent, k + 1)
}

/// Whether the parser can cut out what it cuts out of the field from index `k` on.
fn field_cuttable(text: &str, directive: &Vec<char>, indent: u128, k: usize) -> (answer: bool)
    requires
        directive@ == text@,
        k <= directive.len(),
        indent == byte_len(directive@.take(indent_end(directive@, 0))),
        // up to a field that is cut well, the directive is cut well
        forall|end: int|
            k <= end < directive@.len() && end == first_of(directive@, '}', '}', k as int)
                && can_cut(directive@, k as int) && can_cut(directive@, end) && end + 2
                <= directive@.len() ==> is_sliceable(#[trigger] directive@.take(end + 2)),
    ensures
        answer == field_is_cut_well(directive@, k as int),
{
    let end: usize = find_first(directive, '}', '}', k);
    if end == directive.len() {
        return true;
    }
    if !cuttable(directive, indent, k) || !cuttable(directive, indent, end) {
        return false;
    }
    if directive.len() - end < 2 || directive[end + 1] != ']' {
        return true;
    }
    level_cuttable(directive, indent, end + 2) || !accepts_prefix(text, end + 2)
}

/// Whether the parser can cut out what it cuts out of the span from index `k` on.
fn span_cuttable(text: &str, directive: &Vec<char>, indent: u128, k: usize) -> (answer: bool)
    requires
        directive@ == text@,
        0 < k <= directive.len(),
        indent == byte_len(directive@.take(indent_end(directive@, 0))),
        leads_to_span(directive@, k as int),
        !directive@.contains(','),
    ensures
        answer == span_is_cut_well(directive@, k as int),
{
    let end: usize = find_first(directive, ']', '{', k);
    if end == directive.len() {
        return true;
    }
    if !cuttable(directive, indent, k) || !cuttable(directive, indent, end) {
        return false;
    }
    if directive[end] == ']' {
        return level_cuttable(directive, indent, end + 1);
    }
    proof {
        lemma_first_of(directive@, ']', '{', k as int);
        assert forall|close: int|
            end + 1 <= close < directive@.len() && close == first_of(
                directive@,
                '}',
                '}',
                end + 1,
            ) && can_cut(directive@, end + 1) && can_cut(directive@, close) && close + 2
                <= directive@.len() implies is_sliceable(
            #[trigger] directive@.take(close + 2),
        ) by {
            lemma_prefix_with_field(directive@, k as int, close);
        }
    }
    field_cuttable(text, directive, indent, end + 1)
}

/// Whether the parser cuts the directive nowhere within a character.
fn directive_cuttable(text: &str) -> (answer: bool)
    requires
        !text@.contains(','),
    ensures
        answer == is_cut_well(text@),
{
    let directive: Vec<char> = chars_of(text);
    let start: usize = skip_indent(&directive);
    if start == directive.len() {
        return true;
    }
    let indent: u128 = bytes_before(&directive, start);
    if directive[start] == '[' {
        return span_cuttable(text, &directive, indent, start + 1);
    }
    proof {
        lemma_prefix_of_one(text@);
    }
    if !accepts_prefix(text, start + 1) {
        return true;
    }
    let end: usize = find_first(&directive, '=', '[', start + 1);
    proof {
        lemma_first_of(directive@, '=', '[', start + 1);
    }
    if end == directive.len() {
        return true;
    }
    if !cuttable(&directive, indent, end) {
        return false;
    }
    if directive[end] == '=' {
        cuttable(&directive, indent, end + 1)
    } else {
        span_cuttable(text, &directive, indent, end + 1)
    }
}

/// Whether the parser takes the directives without a panic.
pub fn sliceable(directives: &str) -> (answer: bool)
    ensures
        answer == is_sliceable(directives@),
{
    let text: Vec<char> = chars_of(directives);
    let mut i: usize = 0;
    loop
        invariant
            text@ == directives@,
            i <= text.len(),
            is_sliceable(directives@) == is_sliceable_from(directives@, i as int),
        decreases text.len() - i,
    {
        let end: usize = find_first(&text, ',', ',', i);
        let directive: &str = directives.substring_char(i, end);
        proof {
            lemma_first_of(text@, ',', ',', i as int);
            assert(!directive@.contains(','));
        }
        if !directive_cuttable(directive) {
            return false;
        }
        if end == text.len() {
            return true;
        }
        proof {
            lemma_single_is_sliceable(directive@);
        }
        if parse_filter(directive).is_err() {
            return true;
        }
        i = end + 1;
    }
}

/// The parser gets to a span at index `k`, and cuts nothing before it within a
/// character.
spec fn leads_to_span(directive: Seq<char>, k: int) -> bool {
    let start: int = indent_end(directive, 0);
    &&& 0 <= start < directive.len()
    &&& if directive[start] == '[' {
        k == start + 1
    } else {
        let end: int = first_of(directive, '=', '[', start + 1);
        &&& start < end < directive.len()
        &&& directive[end] == '['
        &&& can_cut(directive, end)
        &&& k == end + 1
    }
}

/// What the first of two characters is.
proof fn lemma_first_of(text: Seq<char>, a: char, b: char, i: int)
    ensures
        i <= first_of(text, a, b, i),
        i <= text.len() ==> first_of(text, a, b, i) <= text.len(),
        first_of(text, a, b, i) < text.len() ==> text[first_of(text, a, b, i)] == a
            || text[first_of(text, a, b, i)] == b,
        forall|j: int|
            i <= j < first_of(text, a, b, i) ==> #[trigger] text[j] != a && text[j] != b,
    decreases text.len() - i,
{
    if i < text.len() && text[i] != a && text[i] != b {
        lemma_first_of(text, a, b, i + 1);
    }
}

/// A prefix has its first character where the text has it, if that is in the prefix.
proof fn lemma_first_of_prefix(text: Seq<char>, n: int, a: char, b: char, i: int)
    requires
        0 <= i <= n <= text.len(),
    ensures
        first_of(text, a, b, i) < n ==> first_of(text.take(n), a, b, i) == first_of(
            text,
            a,
            b,
            i,
        ),
        first_of(text, a, b, i) >= n ==> first_of(text.take(n), a, b, i) == n,
    decreases n - i,
{
    if i < n && text[i] != a && text[i] != b {
        lemma_first_of_prefix(text, n, a, b, i + 1);
    } else if i == n {
        lemma_first_of(text, a, b, i);
    }
}

/// The indentation ends no later than the text, and in a prefix that is longer it ends
/// at the same place.
proof fn lemma_indent_end(text: Seq<char>, n: int, i: int)
    requires
        0 <= i <= text.len(),
        n <= text.len(),
    ensures
        i <= indent_end(text, i) <= text.len(),
        indent_end(text, i) < n ==> indent_end(text.take(n), i) == indent_end(text, i),
    decreases text.len() - i,
{
    if i < text.len() && is_white_space(text[i]) {
        lemma_indent_end(text, n, i + 1);
    }
}

/// One more character in front.
proof fn lemma_byte_len_step(text: Seq<char>, i: int, k: int)
    requires
        0 <= i < k <= text.len(),
    ensures
        byte_len(text.subrange(i, k)) == width(text[i]) + byte_len(text.subrange(i + 1, k)),
{
    assert(text.subrange(i, k).drop_first() =~= text.subrange(i + 1, k));
}

/// More characters take more bytes.
proof fn lemma_byte_len_grows(text: Seq<char>, i: int, j: int, k: int)
    requires
        0 <= i < j <= k <= text.len(),
    ensures
        byte_len(text.subrange(i, k)) > byte_len(text.subrange(j, k)),
    decreases j - i,
{
    lemma_byte_len_step(text, i, k);
    if i + 1 < j {
        lemma_byte_len_grows(text, i + 1, j, k);
    }
}

/// A prefix that is longer than the indentation is cut as the whole is.
proof fn lemma_can_cut_prefix(directive: Seq<char>, n: int, k: int)
    requires
        indent_end(directive, 0) < n <= directive.len(),
        0 <= k <= n,
        can_cut(directive, k),
    ensures
        can_cut(directive.take(n), k),
{
    let prefix: Seq<char> = directive.take(n);
    let start: int = indent_end(directive, 0);
    lemma_indent_end(directive, n, 0);
    assert(prefix.take(start) =~= directive.take(start));
    let j: int = choose|j: int|
        0 <= j <= k && byte_len(#[trigger] directive.subrange(j, k)) == byte_len(
            directive.take(start),
        );
    assert(prefix.subrange(j, k) =~= directive.subrange(j, k));
}

/// A directive that is cut well can be handed to the parser on its own.
proof fn lemma_single_is_sliceable(directive: Seq<char>)
    requires
        !directive.contains(','),
        is_cut_well(directive),
    ensures
        is_sliceable(directive),
{
    let end: int = first_of(directive, ',', ',', 0);
    lemma_first_of(directive, ',', ',', 0);
    lemma_no_comma_is_found(directive, 0);
    assert(directive.subrange(0, end) =~= directive);
}

/// Without a comma there is none to be found.
proof fn lemma_no_comma_is_found(directive: Seq<char>, i: int)
    requires
        0 <= i <= directive.len(),
        !directive.contains(','),
    ensures
        first_of(directive, ',', ',', i) == directive.len(),
    decreases directive.len() - i,
{
    if i < directive.len() {
        assert(directive.contains(directive[i]));
        lemma_no_comma_is_found(directive, i + 1);
    }
}

/// Up to its first character a directive can be handed to the parser.
proof fn lemma_prefix_of_one(directive: Seq<char>)
    requires
        !directive.contains(','),
        indent_end(directive, 0) < directive.len(),
        directive[indent_end(directive, 0)] != '[',
    ensures
        is_sliceable(directive.take(indent_end(directive, 0) + 1)),
{
    let start: int = indent_end(directive, 0);
    lemma_indent_end(directive, start + 1, 0);
    let prefix: Seq<char> = directive.take(start + 1);
    lemma_prefix_has_no_comma(directive, start + 1);
    lemma_single_is_sliceable(prefix);
}

/// A prefix of a directive holds no comma either.
proof fn lemma_prefix_has_no_comma(directive: Seq<char>, n: int)
    requires
        !directive.contains(','),
        0 <= n <= directive.len(),
    ensures
        !directive.take(n).contains(','),
{
    assert forall|i: int| 0 <= i < n implies #[trigger] directive.take(n)[i] != ',' by {
        assert(directive.contains(directive[i]));
    }
}

/// Up to the end of a field that is cut well, and one character on, a directive can be
/// handed to the parser.
proof fn lemma_prefix_with_field(directive: Seq<char>, k: int, close: int)
    requires
        !directive.contains(','),
        0 < k <= directive.len(),
        leads_to_span(directive, k),
        ({
            let open: int = first_of(directive, ']', '{', k);
            &&& k <= open < directive.len()
            &&& directive[open] == '{'
            &&& can_cut(directive, k)
            &&& can_cut(directive, open)
            &&& can_cut(directive, open + 1)
            &&& close == first_of(directive, '}', '}', open + 1)
        }),
        close + 2 <= directive.len(),
        can_cut(directive, close),
    ensures
        is_sliceable(directive.take(close + 2)),
{
    let n: int = close + 2;
    let prefix: Seq<char> = directive.take(n);
    let start: int = indent_end(directive, 0);
    let open: int = first_of(directive, ']', '{', k);
    lemma_first_of(directive, '}', '}', open + 1);
    lemma_indent_end(directive, n, 0);
    lemma_first_of_prefix(directive, n, ']', '{', k);
    lemma_first_of_prefix(directive, n, '}', '}', open + 1);
    lemma_can_cut_prefix(directive, n, k);
    lemma_can_cut_prefix(directive, n, open);
    lemma_can_cut_prefix(directive, n, open + 1);
    lemma_can_cut_prefix(directive, n, close);
    assert(field_is_cut_well(prefix, open + 1));
    assert(span_is_cut_well(prefix, k));
    if directive[start] != '[' {
        lemma_first_of_prefix(directive, n, '=', '[', start + 1);
        lemma_can_cut_prefix(directive, n, k - 1);
        assert(target_is_cut_well(prefix, start + 1));
    }
    lemma_prefix_has_no_comma(directive, n);
    lemma_single_is_sliceable(prefix);
}

/// A directive begins at index `i`.
pub open spec fn begins_directive(directives: Seq<char>, i: int) -> bool {
    i == 0 || directives[i - 1] == ','
}

/// Directives of which none is indented are taken by the parser without a panic.
pub proof fn law_unindented_is_sliceable(directives: Seq<char>)
    requires
        forall|i: int|
            0 <= i < directives.len() && #[trigger] begins_directive(directives, i)
                ==> !is_white_space(directives[i]),
    ensures
        is_sliceable(directives),
{
    assert(begins_directive(directives, 0));
    lemma_unindented_from(directives, 0);
}

/// The same of the directives from index `i` on.
proof fn lemma_unindented_from(directives: Seq<char>, i: int)
    requires
        0 <= i <= directives.len(),
        begins_directive(directives, i),
        forall|j: int|
            0 <= j < directives.len() && #[trigger] begins_directive(directives, j)
                ==> !is_white_space(directives[j]),
    ensures
        is_sliceable_from(directives, i),
    decreases directives.len() - i,
{
    let end: int = first_of(directives, ',', ',', i);
    lemma_first_of(directives, ',', ',', i);
    let directive: Seq<char> = directives.subrange(i, end);
    assert(directive.len() > 0 ==> directive[0] == directives[i]);
    assert(indent_end(directive, 0) == 0);
    assert forall|k: int| 0 <= k <= directive.len() implies #[trigger] can_cut(directive, k) by {
        assert(directive.subrange(k, k) =~= directive.take(0));
    }
    lemma_all_cuts_are_well(directive);
    if end < directives.len() {
        assert(begins_directive(directives, end + 1));
        lemma_unindented_from(directives, end + 1);
    }
}

/// A directive that can be cut for every index behind its indentation is cut well.
proof fn lemma_all_cuts_are_well(directive: Seq<char>)
    requires
        forall|k: int|
            indent_end(directive, 0) <= k <= directive.len() ==> #[trigger] can_cut(directive, k),
    ensures
        is_cut_well(directive),
{
    let start: int = indent_end(directive, 0);
    lemma_indent_end(directive, 0, 0);
    if start < directive.len() {
        let target_end: int = first_of(directive, '=', '[', start + 1);
        lemma_first_of(directive, '=', '[', start + 1);
        lemma_all_cuts_in_span(directive, start + 1);
        if target_end < directive.len() {
            lemma_all_cuts_in_span(directive, target_end + 1);
        }
    }
}

/// The same of the span from index `k` on.
proof fn lemma_all_cuts_in_span(directive: Seq<char>, k: int)
    requires
        0 <= indent_end(directive, 0) <= k <= directive.len(),
        forall|i: int|
            indent_end(directive, 0) <= i <= directive.len() ==> #[trigger] can_cut(directive, i),
    ensures
        span_is_cut_well(directive, k),
{
    let end: int = first_of(directive, ']', '{', k);
    lemma_first_of(directive, ']', '{', k);
    if end < directive.len() {
        lemma_first_of(directive, '}', '}', end + 1);
    }
}

/// Directives in plain ASCII are taken by the parser without a panic.
pub proof fn law_ascii_is_sliceable(directives: Seq<char>)
    requires
        forall|i: int| 0 <= i < directives.len() ==> #[trigger] directives[i] <= '\u{7f}',
    ensures
        is_sliceable(directives),
{
    lemma_ascii_from(directives, 0);
}

/// The same of the directives from index `i` on.
proof fn lemma_ascii_from(directives: Seq<char>, i: int)
    requires
        0 <= i <= directives.len(),
        forall|j: int| 0 <= j < directives.len() ==> #[trigger] directives[j] <= '\u{7f}',
    ensures
        is_sliceable_from(directives, i),
    decreases directives.len() - i,
{
    let end: int = first_of(directives, ',', ',', i);
    lemma_first_of(directives, ',', ',', i);
    let directive: Seq<char> = directives.subrange(i, end);
    let start: int = indent_end(directive, 0);
    lemma_indent_end(directive, 0, 0);
    assert forall|k: int| start <= k <= directive.len() implies #[trigger] can_cut(
        directive,
        k,
    ) by {
        lemma_ascii_byte_len(directive.subrange(k - start, k));
        lemma_ascii_byte_len(directive.take(start));
    }
    lemma_all_cuts_are_well(directive);
    if end < directives.len() {
        lemma_ascii_from(directives, end + 1);
    }
}

/// A character of ASCII takes one byte.
proof fn lemma_ascii_byte_len(text: Seq<char>)
    requires
        forall|i: int| 0 <= i < text.len() ==> #[trigger] text[i] <= '\u{7f}',
    ensures
        byte_len(text) == text.len(),
    decreases text.len(),
{
    if text.len() > 0 {
        lemma_ascii_byte_len(text.drop_first());
    }
}

/// The filter that is used where the environment names none.
pub fn build_default_filter() -> (filter: EnvFilter)
    ensures
        is_default(filter),
{
    let directives: &str = "INFO,mdns_reflector=TRACE";
    proof {
        reveal_strlit("INFO,mdns_reflector=TRACE");
        law_ascii_is_sliceable(directives@);
    }
    match parse_filter(directives) {
        Ok(filter) => filter,
        Err(_) => {
            assert(false);
            vstd::pervasive::unreached()
        },
    }
}

/// The filter to use and the problem to report if parsing the directives of the
/// environment came to `parsed`.
pub fn settle_filter(parsed: Result<EnvFilter, ParseError>, default: EnvFilter) -> (settled: (
    EnvFilter,
    Option<FilterProblem>,
))
    ensures
        settled == (match parsed {
            Ok(filter) => (filter, None),
            Err(error) => (default, Some(FilterProblem::Invalid(error))),
        }),
{
    match parsed {
        Ok(filter) => (filter, None),
        Err(error) => (default, Some(FilterProblem::Invalid(error))),
    }
}

/// The filter to use and the problem to report, if any. Without usable directives
/// in the environment the default filter is used. Directives on which the parser
/// panics are not to be handed in: see `try_choose_filter`.
pub fn choose_filter(variable: FilterVariable) -> (chosen: (EnvFilter, Option<FilterProblem>))
    requires
        is_usable(variable),
    ensures
        is_choice(variable, chosen),
{
    match variable {
        FilterVariable::Directives(directives) => {
            let parsed: Result<EnvFilter, ParseError> = parse_filter(directives.as_str());
            settle_filter(parsed, build_default_filter())
        },
        FilterVariable::NotPresent => (build_default_filter(), None),
        FilterVariable::NotUnicode => {
            (build_default_filter(), Some(FilterProblem::NotUnicode))
        },
    }
}

/// What `choose_filter` gives, or nothing if the variable holds directives on which
/// the parser panics.
pub fn try_choose_filter(variable: FilterVariable) -> (chosen: Option<
    (EnvFilter, Option<FilterProblem>),
>)
    ensures
        chosen is Some <==> is_usable(variable),
        chosen matches Some(choice) ==> is_choice(variable, choice),
{
    if let FilterVariable::Directives(directives) = &variable {
        if !sliceable(directives.as_str()) {
            return None;
        }
    }
    Some(choose_filter(variable))
}

/// What setting up the log came to: it may not be installed, and if it is, a
/// problem with the filter is still an error.
pub fn init_tracing(installed: bool, problem: Option<FilterProblem>) -> (outcome: Result<
    (),
    TracingError,
>)
    ensures
        outcome == tracing_outcome(installed, problem),
{
    if !installed {
        return Err(TracingError::NotInstalled);
    }
    match problem {
        Some(problem) => Err(TracingError::Filter(problem)),
        None => Ok(()),
    }
}

/// Where the log could be installed, setting it up succeeds if and only if there is no
/// variable or its directives can be parsed. It is installed with the filter of these
/// directives if they can be parsed, and in every other case with the default filter.
pub proof fn law_log_follows_the_environment(
    variable: FilterVariable,
    chosen: (EnvFilter, Option<FilterProblem>),
)
    requires
        is_choice(variable, chosen),
    ensures
        tracing_outcome(true, chosen.1) is Ok <==> match variable {
            FilterVariable::Directives(directives) => parsed_filter(directives@) is Ok,
            FilterVariable::NotPresent => true,
            FilterVariable::NotUnicode => false,
        },
        match variable {
            FilterVariable::Directives(directives) => match parsed_filter(directives@) {
                Ok(filter) => chosen.0 == filter,
                Err(_) => is_default(chosen.0),
            },
            _ => is_default(chosen.0),
        },
{
}

/// Counted from index `start` on, index `k` is so many bytes away; the same number of bytes
/// from the beginning of the text, one character ends and another begins.
pub open spec fn falls_between_characters(text: Seq<char>, start: int, k: int) -> bool {
    is_char_boundary(
        encode_utf8(text),
        encode_utf8(text.take(k)).len() - encode_utf8(text.take(start)).len(),
    )
}

/// Which characters are white space, by their numbers in Unicode.
pub proof fn law_white_space(c: char)
    ensures
        is_white_space(c) <==> {
            let number: u32 = c as u32;
            ||| 9 <= number <= 13
            ||| number == 0x20
            ||| number == 0x85
            ||| number == 0xA0
            ||| number == 0x1680
            ||| 0x2000 <= number <= 0x200A
            ||| 0x2028 <= number <= 0x2029
            ||| number == 0x202F
            ||| number == 0x205F
            ||| number == 0x3000
        },
{
}

/// A character takes as many bytes as its encoding has.
proof fn lemma_width(c: char)
    ensures
        width(c) == encode_scalar(c as u32).len(),
{
    char_is_scalar(c);
}

/// A text takes as many bytes as its encoding has.
pub proof fn law_bytes_of_the_encoding(text: Seq<char>)
    ensures
        byte_len(text) == encode_utf8(text).len(),
    decreases text.len(),
{
    if text.len() > 0 {
        lemma_width(text[0]);
        law_bytes_of_the_encoding(text.drop_first());
    }
}

/// The bytes of a text are those of its two parts.
proof fn lemma_byte_len_parts(text: Seq<char>, i: int, j: int, k: int)
    requires
        0 <= i <= j <= k <= text.len(),
    ensures
        byte_len(text.subrange(i, k)) == byte_len(text.subrange(i, j)) + byte_len(
            text.subrange(j, k),
        ),
    decreases j - i,
{
    if i < j {
        lemma_byte_len_step(text, i, k);
        lemma_byte_len_step(text, i, j);
        lemma_byte_len_parts(text, i + 1, j, k);
    } else {
        assert(text.subrange(i, j) =~= Seq::empty());
    }
}

/// Characters begin where those before them end, and nowhere else.
proof fn lemma_boundary(text: Seq<char>, at: int)
    ensures
        is_char_boundary(encode_utf8(text), at) <==> exists|j: int|
            0 <= j <= text.len() && byte_len(#[trigger] text.take(j)) == at,
    decreases text.len(),
{
    let bytes: Seq<u8> = encode_utf8(text);
    encode_utf8_valid_utf8(text);
    law_bytes_of_the_encoding(text);
    assert(text.take(0) =~= Seq::empty());
    assert forall|j: int| 0 <= j <= text.len() implies 0 <= byte_len(#[trigger] text.take(j))
        <= bytes.len() by {
        lemma_byte_len_parts(text, 0, j, text.len() as int);
        assert(text.subrange(0, j) =~= text.take(j));
        assert(text.subrange(0, text.len() as int) =~= text);
    }
    if at == 0 {
        assert(byte_len(text.take(0)) == at);
    } else if text.len() > 0 && 0 < at <= bytes.len() {
        let rest: Seq<char> = text.drop_first();
        let first: int = width(text[0]) as int;
        lemma_width(text[0]);
        encode_utf8_first_scalar(text);
        assert(pop_first_scalar(bytes) =~= encode_utf8(rest));
        lemma_boundary(rest, at - first);
        assert forall|j: int| 0 < j <= text.len() implies byte_len(#[trigger] text.take(j))
            == first + byte_len(rest.take(j - 1)) by {
            assert(text.take(j).drop_first() =~= rest.take(j - 1));
        }
        if is_char_boundary(bytes, at) {
            let j: int = choose|j: int|
                0 <= j <= rest.len() && byte_len(#[trigger] rest.take(j)) == at - first;
            assert(byte_len(text.take(j + 1)) == at);
        }
        if exists|j: int| 0 <= j <= text.len() && byte_len(#[trigger] text.take(j)) == at {
            let j: int = choose|j: int|
                0 <= j <= text.len() && byte_len(#[trigger] text.take(j)) == at;
            assert(byte_len(rest.take(j - 1)) == at - first);
        }
    }
}

/// A directive can be cut for an index if and only if the cut falls between characters.
proof fn lemma_can_cut(directive: Seq<char>, k: int)
    requires
        indent_end(directive, 0) <= k <= directive.len(),
    ensures
        can_cut(directive, k) <==> falls_between_characters(
            directive,
            indent_end(directive, 0),
            k,
        ),
{
    let start: int = indent_end(directive, 0);
    lemma_indent_end(directive, 0, 0);
    law_bytes_of_the_encoding(directive.take(k));
    law_bytes_of_the_encoding(directive.take(start));
    let at: int = byte_len(directive.take(k)) - byte_len(directive.take(start));
    lemma_boundary(directive, at);
    assert(directive.subrange(0, k) =~= directive.take(k));
    assert forall|j: int| 0 <= j <= k implies byte_len(directive.take(k)) == byte_len(
        #[trigger] directive.take(j),
    ) + byte_len(directive.subrange(j, k)) by {
        lemma_byte_len_parts(directive, 0, j, k);
        assert(directive.subrange(0, j) =~= directive.take(j));
    }
    if can_cut(directive, k) {
        let j: int = choose|j: int|
            0 <= j <= k && byte_len(#[trigger] directive.subrange(j, k)) == byte_len(
                directive.take(start),
            );
        assert(byte_len(directive.take(j)) == at);
    }
    if exists|j: int| 0 <= j <= directive.len() && byte_len(#[trigger] directive.take(j)) == at {
        let j: int = choose|j: int|
            0 <= j <= directive.len() && byte_len(#[trigger] directive.take(j)) == at;
        if j > k {
            lemma_byte_len_parts(directive, 0, k, j);
            lemma_byte_len_grows(directive, k, j, j);
            assert(directive.subrange(0, j) =~= directive.take(j));
            assert(directive.subrange(j, j) =~= Seq::empty());
        }
        assert(byte_len(directive.subrange(j, k)) == byte_len(directive.take(start)));
    }
}

/// The text is one directive, without a comma, and its first character that is not white
/// space is at index `start`.
pub open spec fn is_directive(text: Seq<char>, start: int) -> bool {
    &&& !text.contains(',')
    &&& 0 <= start < text.len()
    &&& !is_white_space(text[start])
    &&& forall|i: int| 0 <= i < start ==> is_white_space(#[trigger] text[i])
}

/// From index `i` on, neither character comes before index `end`.
pub open spec fn is_free_of(text: Seq<char>, a: char, b: char, i: int, end: int) -> bool {
    forall|j: int| i <= j < end ==> #[trigger] text[j] != a && text[j] != b
}

/// Where the first of two characters is found.
proof fn lemma_first_of_is(text: Seq<char>, a: char, b: char, i: int, end: int)
    requires
        i <= end <= text.len(),
        is_free_of(text, a, b, i, end),
        end < text.len() ==> text[end] == a || text[end] == b,
    ensures
        first_of(text, a, b, i) == end,
    decreases end - i,
{
    if i < end {
        lemma_first_of_is(text, a, b, i + 1, end);
    }
}

/// Where the indentation ends.
proof fn lemma_indent_end_is(text: Seq<char>, i: int, end: int)
    requires
        0 <= i <= end <= text.len(),
        forall|j: int| i <= j < end ==> is_white_space(#[trigger] text[j]),
        end < text.len() ==> !is_white_space(text[end]),
    ensures
        indent_end(text, i) == end,
    decreases end - i,
{
    if i < end {
        lemma_indent_end_is(text, i + 1, end);
    }
}

/// A text without a comma is one directive.
proof fn lemma_single(directive: Seq<char>)
    requires
        !directive.contains(','),
    ensures
        is_sliceable(directive) == is_cut_well(directive),
{
    lemma_no_comma_is_found(directive, 0);
    assert(directive.subrange(0, directive.len() as int) =~= directive);
}

/// What comes before it does not matter to the directives from some index on.
proof fn lemma_sliceable_behind(before: Seq<char>, directives: Seq<char>, i: int)
    requires
        0 <= i <= directives.len(),
    ensures
        is_sliceable_from(before + directives, before.len() + i) == is_sliceable_from(
            directives,
            i,
        ),
    decreases directives.len() - i,
{
    let all: Seq<char> = before + directives;
    let n: int = before.len() as int;
    let end: int = first_of(directives, ',', ',', i);
    lemma_first_of(directives, ',', ',', i);
    assert forall|j: int| n + i <= j < n + end implies #[trigger] all[j] != ',' by {
        assert(directives[j - n] != ',');
    }
    lemma_first_of_is(all, ',', ',', n + i, n + end);
    assert(all.subrange(n + i, n + end) =~= directives.subrange(i, end));
    if end < directives.len() {
        lemma_sliceable_behind(before, directives, end + 1);
    }
}

/// Directives are taken one by one: those behind a comma matter if and only if the parser
/// accepts the one before it.
pub proof fn law_directives_one_by_one(
    first: &str,
    rest: &str,
    all: &str,
    first_answer: bool,
    rest_answer: bool,
    answer: bool,
)
    requires
        !first@.contains(','),
        all@ == first@.push(',') + rest@,
        call_ensures(sliceable, (first,), first_answer),
        call_ensures(sliceable, (rest,), rest_answer),
        call_ensures(sliceable, (all,), answer),
    ensures
        answer <==> first_answer && (parsed_filter(first@) is Ok ==> rest_answer),
{
    let n: int = first@.len() as int;
    assert forall|j: int| 0 <= j < n implies #[trigger] all@[j] != ',' by {
        assert(first@.contains(first@[j]));
    }
    lemma_first_of_is(all@, ',', ',', 0, n);
    assert(all@.subrange(0, n) =~= first@);
    lemma_single(first@);
    lemma_sliceable_behind(first@.push(','), rest@, 0);
}

/// A directive that is all white space, or in which neither `=` nor `[` comes, is taken, and
/// so is one whose first character the parser does not accept.
pub proof fn law_plain_directives(text: &str, start: int, answer: bool)
    requires
        call_ensures(sliceable, (text,), answer),
        text@.len() == start && !text@.contains(',') && (forall|i: int|
            0 <= i < start ==> is_white_space(#[trigger] text@[i])) || is_directive(text@, start)
            && text@[start] != '[' && (is_free_of(text@, '=', '[', start + 1, text@.len() as int)
            || parsed_filter(text@.take(start + 1)) is Err),
    ensures
        answer,
{
    lemma_indent_end_is(text@, 0, start);
    lemma_single(text@);
    if start < text@.len() && is_free_of(text@, '=', '[', start + 1, text@.len() as int) {
        lemma_first_of_is(text@, '=', '[', start + 1, text@.len() as int);
    }
}

/// A directive that gives the level of a target is taken if and only if both sides of the
/// sign between them fall between characters.
pub proof fn law_target_with_level(text: &str, start: int, sign: int, answer: bool)
    requires
        call_ensures(sliceable, (text,), answer),
        is_directive(text@, start),
        text@[start] != '[',
        parsed_filter(text@.take(start + 1)) is Ok,
        start < sign < text@.len(),
        is_free_of(text@, '=', '[', start + 1, sign),
        text@[sign] == '=',
    ensures
        answer <==> falls_between_characters(text@, start, sign) && falls_between_characters(
            text@,
            start,
            sign + 1,
        ),
{
    lemma_indent_end_is(text@, 0, start);
    lemma_single(text@);
    lemma_first_of_is(text@, '=', '[', start + 1, sign);
    lemma_can_cut(text@, sign);
    lemma_can_cut(text@, sign + 1);
}

/// A span opens at index `open` of the directive: at its beginning, or behind a target.
pub open spec fn opens_span(text: Seq<char>, start: int, open: int) -> bool {
    &&& is_directive(text, start)
    &&& start <= open < text.len()
    &&& text[open] == '['
    &&& open > start ==> {
        &&& text[start] != '['
        &&& parsed_filter(text.take(start + 1)) is Ok
        &&& is_free_of(text, '=', '[', start + 1, open)
    }
}

/// What is left to say of a directive with a span.
proof fn lemma_opens_span(text: Seq<char>, start: int, open: int)
    requires
        opens_span(text, start, open),
    ensures
        indent_end(text, 0) == start,
        is_sliceable(text) <==> (open > start ==> falls_between_characters(text, start, open))
            && span_is_cut_well(text, open + 1),
{
    lemma_indent_end_is(text, 0, start);
    lemma_single(text);
    if open > start {
        lemma_first_of_is(text, '=', '[', start + 1, open);
        lemma_can_cut(text, open);
    }
}

/// A directive with a span that neither ends nor has fields is taken if and only if the
/// target before it, where there is one, ends between characters.
pub proof fn law_open_span(text: &str, start: int, open: int, answer: bool)
    requires
        call_ensures(sliceable, (text,), answer),
        opens_span(text@, start, open),
        is_free_of(text@, ']', '{', open + 1, text@.len() as int),
    ensures
        answer <==> (open > start ==> falls_between_characters(text@, start, open)),
{
    lemma_opens_span(text@, start, open);
    lemma_first_of_is(text@, ']', '{', open + 1, text@.len() as int);
}

/// A directive with a span without fields is taken if and only if the target before it,
/// where there is one, the span, and the level behind it, where there is one, begin and
/// end between characters.
pub proof fn law_span_without_fields(text: &str, start: int, open: int, close: int, answer: bool)
    requires
        call_ensures(sliceable, (text,), answer),
        opens_span(text@, start, open),
        open < close < text@.len(),
        is_free_of(text@, ']', '{', open + 1, close),
        text@[close] == ']',
    ensures
        answer <==> {
            &&& open > start ==> falls_between_characters(text@, start, open)
            &&& falls_between_characters(text@, start, open + 1)
            &&& falls_between_characters(text@, start, close)
            &&& close + 1 < text@.len() && text@[close + 1] == '='
                ==> falls_between_characters(text@, start, close + 2)
        },
{
    lemma_opens_span(text@, start, open);
    lemma_first_of_is(text@, ']', '{', open + 1, close);
    lemma_can_cut(text@, open + 1);
    lemma_can_cut(text@, close);
    if close + 1 < text@.len() {
        lemma_can_cut(text@, close + 2);
    }
}

/// A directive with a span whose fields do not end is taken if and only if what comes
/// before the fields begins and ends between characters.
pub proof fn law_span_with_open_fields(
    text: &str,
    start: int,
    open: int,
    fields: int,
    answer: bool,
)
    requires
        call_ensures(sliceable, (text,), answer),
        opens_span(text@, start, open),
        open < fields < text@.len(),
        is_free_of(text@, ']', '{', open + 1, fields),
        text@[fields] == '{',
        is_free_of(text@, '}', '}', fields + 1, text@.len() as int),
    ensures
        answer <==> {
            &&& open > start ==> falls_between_characters(text@, start, open)
            &&& falls_between_characters(text@, start, open + 1)
            &&& falls_between_characters(text@, start, fields)
        },
{
    lemma_opens_span(text@, start, open);
    lemma_first_of_is(text@, ']', '{', open + 1, fields);
    lemma_first_of_is(text@, '}', '}', fields + 1, text@.len() as int);
    lemma_can_cut(text@, open + 1);
    lemma_can_cut(text@, fields);
}

/// A directive with a span with fields is taken if and only if all of what comes up to the
/// end of the fields begins and ends between characters, and the level behind them begins
/// so as well, if the parser gets there.
pub proof fn law_span_with_fields(
    text: &str,
    start: int,
    open: int,
    fields: int,
    close: int,
    answer: bool,
)
    requires
        call_ensures(sliceable, (text,), answer),
        opens_span(text@, start, open),
        open < fields < close < text@.len(),
        is_free_of(text@, ']', '{', open + 1, fields),
        text@[fields] == '{',
        is_free_of(text@, '}', '}', fields + 1, close),
        text@[close] == '}',
    ensures
        answer <==> {
            &&& open > start ==> falls_between_characters(text@, start, open)
            &&& falls_between_characters(text@, start, open + 1)
            &&& falls_between_characters(text@, start, fields)
            &&& falls_between_characters(text@, start, fields + 1)
            &&& falls_between_characters(text@, start, close)
            &&& close + 2 < text@.len() && text@[close + 1] == ']' && text@[close + 2] == '='
                && parsed_filter(text@.take(close + 2)) is Ok ==> falls_between_characters(
                text@,
                start,
                close + 3,
            )
        },
{
    lemma_opens_span(text@, start, open);
    lemma_first_of_is(text@, ']', '{', open + 1, fields);
    lemma_first_of_is(text@, '}', '}', fields + 1, close);
    lemma_can_cut(text@, open + 1);
    lemma_can_cut(text@, fields);
    lemma_can_cut(text@, fields + 1);
    lemma_can_cut(text@, close);
    if close + 2 < text@.len() {
        lemma_can_cut(text@, close + 3);
    }
}

/// The filter without directives lets through what "INFO,mdns_reflector=TRACE" does.
pub proof fn law_default_filter(filter: EnvFilter)
    requires
        call_ensures(build_default_filter, (), filter),
    ensures
        parsed_filter("INFO,mdns_reflector=TRACE"@) == Ok::<EnvFilter, ParseError>(filter),
{
}

/// Directives that can be parsed are used and no problem is reported; otherwise the
/// default is used and the reason reported.
pub proof fn law_settled_filter(
    parsed: Result<EnvFilter, ParseError>,
    default: EnvFilter,
    settled: (EnvFilter, Option<FilterProblem>),
)
    requires
        call_ensures(settle_filter, (parsed, default), settled),
    ensures
        settled.1 is None <==> parsed is Ok,
        parsed matches Ok(filter) ==> settled.0 == filter,
        parsed matches Err(error) ==> settled.0 == default && settled.1 == Some(
            FilterProblem::Invalid(error),
        ),
{
}

/// What the variable holds is used if it can be parsed, and the default filter otherwise.
/// A problem is reported if there is a variable and what it holds is not used.
pub proof fn law_chosen_filter(
    variable: FilterVariable,
    default: EnvFilter,
    chosen: (EnvFilter, Option<FilterProblem>),
)
    requires
        parsed_filter("INFO,mdns_reflector=TRACE"@) == Ok::<EnvFilter, ParseError>(default),
        call_ensures(choose_filter, (variable,), chosen),
    ensures
        variable matches FilterVariable::Directives(directives) ==> {
            &&& parsed_filter(directives@) matches Ok(filter) ==> chosen.0 == filter
                && chosen.1 is None
            &&& parsed_filter(directives@) matches Err(error) ==> chosen.0 == default && chosen.1
                == Some(FilterProblem::Invalid(error))
        },
        variable is NotPresent ==> chosen.0 == default && chosen.1 is None,
        variable is NotUnicode ==> chosen.0 == default && (chosen.1 matches Some(problem)
            && problem is NotUnicode),
{
}

/// A filter is chosen unless the variable holds directives that the parser does not take,
/// and then it is the one that `choose_filter` gives.
pub proof fn law_filter_is_chosen_where_it_can_be(
    variable: FilterVariable,
    text: &str,
    answer: bool,
    attempt: Option<(EnvFilter, Option<FilterProblem>)>,
    chosen: (EnvFilter, Option<FilterProblem>),
)
    requires
        variable matches FilterVariable::Directives(directives) ==> directives@ == text@,
        call_ensures(sliceable, (text,), answer),
        call_ensures(try_choose_filter, (variable,), attempt),
        attempt is Some ==> call_ensures(choose_filter, (variable,), chosen),
    ensures
        attempt is None <==> variable is Directives && !answer,
        attempt is Some ==> call_requires(choose_filter, (variable,)),
        attempt matches Some(choice) ==> choice.0 == chosen.0 && choice.1 == chosen.1,
{
}

/// What setting up the log comes to: an error if it could not be installed, whatever the
/// filter; and otherwise an error if and only if there is a problem with the filter, which
/// the error tells.
pub proof fn law_tracing_outcome(
    installed: bool,
    problem: Option<FilterProblem>,
    outcome: Result<(), TracingError>,
)
    requires
        call_ensures(init_tracing, (installed, problem), outcome),
    ensures
        outcome is Ok <==> installed && problem is None,
        !installed ==> (outcome matches Err(error) && error is NotInstalled),
        installed ==> (problem matches Some(reason) ==> outcome == Err::<(), TracingError>(
            TracingError::Filter(reason),
        )),
{
}

} // verus!
