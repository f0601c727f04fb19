//! The lexer: turns source text into a sequence of classified tokens. The
//! text is trimmed, split into lines on `'\n'`, and each line into words on
//! runs of blank characters; a parenthesis or brace is a word of its own even
//! with no blank around it. Each word is classified in priority order:
//! operator, keyword, parenthesis or brace, numeric literal, identifier.
//! Identifiers are interned through the symbol table to stable ids. After
//! each line's words a line-end token is emitted, with word number 0.

use vstd::prelude::*;

use crate::ast::KeySet;
use crate::ast::LexResult;
use crate::ast::LexResultS;
use crate::ast::LexToken;
use crate::ast::OpSet;
use crate::ast::ParSet;
use crate::ast::TokS;
use crate::ast::Var;
use crate::ast::toks_view;
use crate::hash::SSMap;

verus! {

use vstd::string::StrSliceExecFns;

/// The one failure the lexer can meet: the id space for identifiers is
/// exhausted. Carries the position of the word that could not be interned.
pub struct LexError {
    msg: &'static str,
    info: (usize, usize),
}

/// Mathematical image of a lexer error.
pub struct LexErrS {
    pub msg: Seq<char>,
    pub info: (usize, usize),
}

impl View for LexError {
    type V = LexErrS;

    closed spec fn view(&self) -> LexErrS {
        LexErrS { msg: self.msg@, info: self.info }
    }
}

impl LexError {
    /// Builds an error from its message and position.
    pub fn new(msg: &'static str, info: (usize, usize)) -> (r: LexError)
        ensures
            r@.msg == msg@,
            r@.info == info,
    {
        LexError { msg, info }
    }

    /// The `(line number, word number)` position of the offending word.
    pub fn position(&self) -> (r: (usize, usize))
        ensures
            r == self@.info,
    {
        self.info
    }

    /// The error message.
    pub fn message(&self) -> (r: &'static str)
        ensures
            r@ == self@.msg,
    {
        self.msg
    }
}

/// A blank character within a line: words are split on runs of these.
pub open spec fn is_space(c: char) -> bool {
    c == ' ' || c == '\t' || c == '\r'
}

/// A parenthesis or brace character: always a word of its own, even with no
/// blank around it, so that `add(x y)` reads as `add ( x y )`.
pub open spec fn is_bracket_char(c: char) -> bool {
    c == '(' || c == ')' || c == '{' || c == '}'
}

/// A character that the surrounding trim removes: blanks and line breaks.
pub open spec fn is_trimmable(c: char) -> bool {
    is_space(c) || c == '\n'
}

/// The text with leading trimmable characters removed.
pub open spec fn trim_front(s: Seq<char>) -> Seq<char>
    decreases s.len(),
{
    if s.len() > 0 && is_trimmable(s[0]) {
        trim_front(s.drop_first())
    } else {
        s
    }
}

/// The text with trailing trimmable characters removed.
pub open spec fn trim_back(s: Seq<char>) -> Seq<char>
    decreases s.len(),
{
    if s.len() > 0 && is_trimmable(s[s.len() - 1]) {
        trim_back(s.drop_last())
    } else {
        s
    }
}

/// The text with trimmable characters removed at both ends.
pub open spec fn spec_trim(s: Seq<char>) -> Seq<char> {
    trim_back(trim_front(s))
}

/// The number of characters before the first `'\n'`.
pub open spec fn line_len(s: Seq<char>) -> nat
    decreases s.len(),
{
    if s.len() == 0 || s[0] == '\n' {
        0
    } else {
        1 + line_len(s.drop_first())
    }
}

/// The length of the leading word: characters up to the first blank, line
/// break, parenthesis or brace.
pub open spec fn word_len(s: Seq<char>) -> nat
    decreases s.len(),
{
    if s.len() == 0 || is_space(s[0]) || s[0] == '\n' || is_bracket_char(s[0]) {
        0
    } else {
        1 + word_len(s.drop_first())
    }
}

/// A word never extends past the text it starts.
pub proof fn lemma_word_len_le(s: Seq<char>)
    ensures
        word_len(s) <= s.len(),
    decreases s.len(),
{
    if !(s.len() == 0 || is_space(s[0]) || s[0] == '\n' || is_bracket_char(s[0])) {
        lemma_word_len_le(s.drop_first());
    }
}

/// A line never extends past the text it starts.
pub proof fn lemma_line_len_le(s: Seq<char>)
    ensures
        line_len(s) <= s.len(),
    decreases s.len(),
{
    if !(s.len() == 0 || s[0] == '\n') {
        lemma_line_len_le(s.drop_first());
    }
}

/// A decimal digit.
pub open spec fn is_digit(c: char) -> bool {
    48 <= c as u32 && c as u32 <= 57
}

/// The recognizer states for numeric literals.
#[derive(Clone, Copy, PartialEq, Eq, Structural, Debug)]
pub enum NumSt {
    Start,
    SignSeen,
    IntPart,
    DotOnly,
    FracPart,
    ExpStart,
    ExpSign,
    ExpPart,
    WordI,
    WordIn,
    WordInf,
    WordInfi,
    WordInfin,
    WordInfini,
    WordInfinit,
    WordInfinity,
    WordN,
    WordNa,
    WordNan,
    Bad,
}

/// One step of the numeric-literal recognizer: an optional sign, then
/// either digits with an optional point (or a point followed by digits) and
/// an optional exponent with its own optional sign and digits, or one of the
/// case-insensitive words `inf`, `infinity` and `nan`.
pub open spec fn num_step(st: NumSt, c: char) -> NumSt {
    match st {
        NumSt::Start => if c == '+' || c == '-' {
            NumSt::SignSeen
        } else if is_digit(c) {
            NumSt::IntPart
        } else if c == '.' {
            NumSt::DotOnly
        } else if c == 'i' || c == 'I' {
            NumSt::WordI
        } else if c == 'n' || c == 'N' {
            NumSt::WordN
        } else {
            NumSt::Bad
        },
        NumSt::SignSeen => if is_digit(c) {
            NumSt::IntPart
        } else if c == '.' {
            NumSt::DotOnly
        } else if c == 'i' || c == 'I' {
            NumSt::WordI
        } else if c == 'n' || c == 'N' {
            NumSt::WordN
        } else {
            NumSt::Bad
        },
        NumSt::IntPart => if is_digit(c) {
            NumSt::IntPart
        } else if c == '.' {
            NumSt::FracPart
        } else if c == 'e' || c == 'E' {
            NumSt::ExpStart
        } else {
            NumSt::Bad
        },
        NumSt::DotOnly => if is_digit(c) {
            NumSt::FracPart
        } else {
            NumSt::Bad
        },
        NumSt::FracPart => if is_digit(c) {
            NumSt::FracPart
        } else if c == 'e' || c == 'E' {
            NumSt::ExpStart
        } else {
            NumSt::Bad
        },
        NumSt::ExpStart => if c == '+' || c == '-' {
            NumSt::ExpSign
        } else if is_digit(c) {
            NumSt::ExpPart
        } else {
            NumSt::Bad
        },
        NumSt::ExpSign => if is_digit(c) {
            NumSt::ExpPart
        } else {
            NumSt::Bad
        },
        NumSt::ExpPart => if is_digit(c) {
            NumSt::ExpPart
        } else {
            NumSt::Bad
        },
        NumSt::WordI => if c == 'n' || c == 'N' {
            NumSt::WordIn
        } else {
            NumSt::Bad
        },
        NumSt::WordIn => if c == 'f' || c == 'F' {
            NumSt::WordInf
        } else {
            NumSt::Bad
        },
        NumSt::WordInf => if c == 'i' || c == 'I' {
            NumSt::WordInfi
        } else {
            NumSt::Bad
        },
        NumSt::WordInfi => if c == 'n' || c == 'N' {
            NumSt::WordInfin
        } else {
            NumSt::Bad
        },
        NumSt::WordInfin => if c == 'i' || c == 'I' {
            NumSt::WordInfini
        } else {
            NumSt::Bad
        },
        NumSt::WordInfini => if c == 't' || c == 'T' {
            NumSt::WordInfinit
        } else {
            NumSt::Bad
        },
        NumSt::WordInfinit => if c == 'y' || c == 'Y' {
            NumSt::WordInfinity
        } else {
            NumSt::Bad
        },
        NumSt::WordInfinity => NumSt::Bad,
        NumSt::WordN => if c == 'a' || c == 'A' {
            NumSt::WordNa
        } else {
            NumSt::Bad
        },
        NumSt::WordNa => if c == 'n' || c == 'N' {
            NumSt::WordNan
        } else {
            NumSt::Bad
        },
        NumSt::WordNan => NumSt::Bad,
        NumSt::Bad => NumSt::Bad,
    }
}

/// The recognizer run over a whole word.
pub open spec fn num_run(s: Seq<char>, st: NumSt) -> NumSt
    decreases s.len(),
{
    if s.len() == 0 {
        st
    } else {
        num_run(s.drop_first(), num_step(st, s[0]))
    }
}

/// The states in which a word is a complete numeric literal.
pub open spec fn num_accept(st: NumSt) -> bool {
    ||| st == NumSt::IntPart
    ||| st == NumSt::FracPart
    ||| st == NumSt::ExpPart
    ||| st == NumSt::WordInf
    ||| st == NumSt::WordInfinity
    ||| st == NumSt::WordNan
}

/// Whether a word is a numeric literal.
pub open spec fn spec_is_number(w: Seq<char>) -> bool {
    num_accept(num_run(w, NumSt::Start))
}

/// The operator spelled by a word, if any: `+ - * / ** =`.
pub open spec fn spec_op(w: Seq<char>) -> Option<OpSet> {
    if w.len() == 1 {
        if w[0] == '+' {
            Some(OpSet::Add)
        } else if w[0] == '-' {
            Some(OpSet::Sub)
        } else if w[0] == '*' {
            Some(OpSet::Mul)
        } else if w[0] == '/' {
            Some(OpSet::Div)
        } else if w[0] == '=' {
            Some(OpSet::Assign)
        } else {
            None
        }
    } else if w.len() == 2 && w[0] == '*' && w[1] == '*' {
        Some(OpSet::Pow)
    } else {
        None
    }
}

/// The numeric id of an operator, as `get_opid` reports it.
pub open spec fn op_id(o: OpSet) -> u8 {
    match o {
        OpSet::Add => 0,
        OpSet::Sub => 1,
        OpSet::Mul => 2,
        OpSet::Div => 3,
        OpSet::Pow => 4,
        OpSet::Assign => 5,
    }
}

/// The keyword spelled by a word, if any: only `func`.
pub open spec fn spec_key(w: Seq<char>) -> Option<KeySet> {
    if w.len() == 4 && w[0] == 'f' && w[1] == 'u' && w[2] == 'n' && w[3] == 'c' {
        Some(KeySet::Func)
    } else {
        None
    }
}

/// The parenthesis or brace spelled by a word, if any.
pub open spec fn spec_par(w: Seq<char>) -> Option<ParSet> {
    if w.len() == 1 {
        if w[0] == '(' {
            Some(ParSet::LPar)
        } else if w[0] == ')' {
            Some(ParSet::RPar)
        } else if w[0] == '{' {
            Some(ParSet::LBkt)
        } else if w[0] == '}' {
            Some(ParSet::RBkt)
        } else {
            None
        }
    } else {
        None
    }
}

/// The numeric id of a parenthesis or brace, as `get_pid` reports it.
pub open spec fn par_id(p: ParSet) -> u8 {
    match p {
        ParSet::LPar => 0,
        ParSet::RPar => 1,
        ParSet::LBkt => 2,
        ParSet::RBkt => 3,
    }
}

/// Interning: a known text keeps its id and changes nothing; a fresh text
/// receives the next id and the id counter moves on.
pub open spec fn spec_get_vid(vm: Map<Seq<char>, Var>, ceil: Var, w: Seq<char>) -> (
    Var,
    Map<Seq<char>, Var>,
    Var,
) {
    if vm.contains_key(w) {
        (vm[w], vm, ceil)
    } else {
        (ceil, vm.insert(w, ceil), (ceil + 1) as Var)
    }
}

/// Classification of one word, in priority order: operator, keyword,
/// parenthesis or brace, numeric literal, identifier. `None` only when a
/// fresh identifier arrives with the id space exhausted.
pub open spec fn spec_classify(w: Seq<char>, vm: Map<Seq<char>, Var>, ceil: Var) -> Option<
    (TokS, Map<Seq<char>, Var>, Var),
> {
    if spec_op(w) is Some {
        Some((TokS::Op(spec_op(w).unwrap()), vm, ceil))
    } else if spec_key(w) is Some {
        Some((TokS::Key(spec_key(w).unwrap()), vm, ceil))
    } else if spec_par(w) is Some {
        Some((TokS::Par(spec_par(w).unwrap()), vm, ceil))
    } else if spec_is_number(w) {
        Some((TokS::Raw(w), vm, ceil))
    } else if vm.contains_key(w) || ceil < Var::MAX {
        let (id, vm2, c2) = spec_get_vid(vm, ceil, w);
        Some((TokS::Var(id), vm2, c2))
    } else {
        None
    }
}

/// The tokens of one line's words: blanks are skipped, each word is
/// classified and stamped with its 1-based word number. An error carries the
/// position of the word that failed.
pub open spec fn spec_lex_words(
    s: Seq<char>,
    ln: usize,
    wn: usize,
    vm: Map<Seq<char>, Var>,
    ceil: Var,
) -> Result<(Seq<LexResultS>, Map<Seq<char>, Var>, Var), (usize, usize)>
    decreases s.len(),
    via spec_lex_words_decreases
{
    if s.len() == 0 {
        Ok((Seq::empty(), vm, ceil))
    } else if is_space(s[0]) || s[0] == '\n' {
        spec_lex_words(s.drop_first(), ln, wn, vm, ceil)
    } else {
        let k0 = word_len(s);
        let k: nat = if k0 == 0 {
            1
        } else {
            k0
        };
        match spec_classify(s.subrange(0, k as int), vm, ceil) {
            None => Err((ln, wn)),
            Some((t, vm2, c2)) => match spec_lex_words(
                s.subrange(k as int, s.len() as int),
                ln,
                (wn + 1) as usize,
                vm2,
                c2,
            ) {
                Err(e) => Err(e),
                Ok((ts, vm3, c3)) => Ok(
                    (seq![LexResultS { token: t, info: (ln, wn) }] + ts, vm3, c3),
                ),
            },
        }
    }
}

#[via_fn]
proof fn spec_lex_words_decreases(
    s: Seq<char>,
    ln: usize,
    wn: usize,
    vm: Map<Seq<char>, Var>,
    ceil: Var,
) {
    lemma_word_len_le(s);
}

/// The tokens of the remaining lines, each line closed by a line-end token
/// with word number 0.
pub open spec fn spec_lex_lines(
    s: Seq<char>,
    ln: usize,
    vm: Map<Seq<char>, Var>,
    ceil: Var,
) -> Result<(Seq<LexResultS>, Map<Seq<char>, Var>, Var), (usize, usize)>
    decreases s.len(),
    via spec_lex_lines_decreases
{
    let k = line_len(s);
    match spec_lex_words(s.subrange(0, k as int), ln, 1, vm, ceil) {
        Err(e) => Err(e),
        Ok((ts, vm2, c2)) => {
            let line_toks = ts.push(LexResultS { token: TokS::Endl, info: (ln, 0) });
            if k == s.len() {
                Ok((line_toks, vm2, c2))
            } else {
                match spec_lex_lines(
                    s.subrange(k as int + 1, s.len() as int),
                    (ln + 1) as usize,
                    vm2,
                    c2,
                ) {
                    Err(e) => Err(e),
                    Ok((ts2, vm3, c3)) => Ok((line_toks + ts2, vm3, c3)),
                }
            }
        },
    }
}

#[via_fn]
proof fn spec_lex_lines_decreases(s: Seq<char>, ln: usize, vm: Map<Seq<char>, Var>, ceil: Var) {
    lemma_line_len_le(s);
}

/// The tokens of a whole source text: the text is trimmed and lexed line by
/// line. A blank text is one empty line, so it still yields its line-end
/// token at line 1, word 0: the token sequence of any source ends with one.
pub open spec fn spec_lex(code: Seq<char>, vm: Map<Seq<char>, Var>, ceil: Var) -> Result<
    (Seq<LexResultS>, Map<Seq<char>, Var>, Var),
    (usize, usize),
> {
    spec_lex_lines(spec_trim(code), 1, vm, ceil)
}

/// Whether some interned text holds the given id.
pub open spec fn id_issued(vm: Map<Seq<char>, Var>, id: Var) -> bool {
    exists|k: Seq<char>| #[trigger] vm.contains_key(k) && vm[k] == id
}

/// An interning state is sound when the issued ids are exactly those below
/// the counter, and no two texts share an id: after n distinct texts the ids
/// handed out are exactly 0 to n - 1.
pub open spec fn intern_wf(vm: Map<Seq<char>, Var>, ceil: Var) -> bool {
    &&& forall|k: Seq<char>| #[trigger] vm.contains_key(k) ==> vm[k] < ceil
    &&& forall|k1: Seq<char>, k2: Seq<char>|
        #![trigger vm[k1], vm[k2]]
        vm.contains_key(k1) && vm.contains_key(k2) && k1 != k2 ==> vm[k1] != vm[k2]
    &&& forall|id: Var| id < ceil ==> #[trigger] id_issued(vm, id)
}

/// One interning step keeps the state sound: a known text changes nothing, a
/// fresh one takes exactly the next id.
pub proof fn lemma_intern_step_sound(vm: Map<Seq<char>, Var>, ceil: Var, w: Seq<char>)
    requires
        intern_wf(vm, ceil),
        vm.contains_key(w) || ceil < Var::MAX,
    ensures
        intern_wf(spec_get_vid(vm, ceil, w).1, spec_get_vid(vm, ceil, w).2),
{
    if !vm.contains_key(w) {
        let vm2 = vm.insert(w, ceil);
        let c2 = (ceil + 1) as Var;
        assert forall|id: Var| id < c2 implies #[trigger] id_issued(vm2, id) by {
            if id < ceil {
                assert(id_issued(vm, id));
                let k = choose|k: Seq<char>| #[trigger] vm.contains_key(k) && vm[k] == id;
                assert(vm2.contains_key(k) && vm2[k] == id);
            } else {
                assert(vm2.contains_key(w) && vm2[w] == ceil);
            }
        }
    }
}

/// Interning stability: one text asked twice keeps its id, two different
/// texts never share an id, a fresh text receives exactly the next id in
/// first-seen order, and the ids issued stay exactly those below the counter
/// (`intern_wf`). The counter bound is the id space's machine limit, leaving
/// headroom for the two interning calls the statement speaks of.
pub proof fn lemma_interning_stability(
    vm: Map<Seq<char>, Var>,
    ceil: Var,
    a: Seq<char>,
    b: Seq<char>,
)
    requires
        intern_wf(vm, ceil),
        ceil < Var::MAX,
    ensures
        spec_get_vid(spec_get_vid(vm, ceil, a).1, spec_get_vid(vm, ceil, a).2, a).0
            == spec_get_vid(vm, ceil, a).0,
        a != b ==> spec_get_vid(spec_get_vid(vm, ceil, a).1, spec_get_vid(vm, ceil, a).2, b).0
            != spec_get_vid(vm, ceil, a).0,
        !vm.contains_key(a) ==> spec_get_vid(vm, ceil, a).0 == ceil,
        intern_wf(spec_get_vid(vm, ceil, a).1, spec_get_vid(vm, ceil, a).2),
{
    lemma_intern_step_sound(vm, ceil, a);
}

/// The first-line length is the position of the first line break, or the
/// whole text when there is none.
proof fn lemma_line_len_at(s: Seq<char>, i: int)
    requires
        0 <= i <= s.len(),
        forall|j: int| 0 <= j < i ==> s[j] != '\n',
        i < s.len() ==> s[i] == '\n',
    ensures
        line_len(s) == i,
    decreases i,
{
    if i > 0 {
        lemma_line_len_at(s.drop_first(), i - 1);
    }
}

/// The leading word ends at the first blank, line break, parenthesis or
/// brace, or at the whole text.
proof fn lemma_word_len_at(s: Seq<char>, i: int)
    requires
        0 <= i <= s.len(),
        forall|j: int| 0 <= j < i ==> !is_space(s[j]) && s[j] != '\n' && !is_bracket_char(s[j]),
        i < s.len() ==> is_space(s[i]) || s[i] == '\n' || is_bracket_char(s[i]),
    ensures
        word_len(s) == i,
    decreases i,
{
    if i > 0 {
        lemma_word_len_at(s.drop_first(), i - 1);
    }
}

/// Removing the leading trimmable run is the same as skipping past it.
proof fn lemma_trim_front_skip(s: Seq<char>, lo: int)
    requires
        0 <= lo <= s.len(),
        forall|j: int| 0 <= j < lo ==> is_trimmable(s[j]),
        lo < s.len() ==> !is_trimmable(s[lo]),
    ensures
        trim_front(s) == s.skip(lo),
    decreases lo,
{
    if lo == 0 {
        assert(s.skip(0) =~= s);
    } else {
        lemma_trim_front_skip(s.drop_first(), lo - 1);
        assert(s.drop_first().skip(lo - 1) =~= s.skip(lo));
    }
}

/// Removing the trailing trimmable run is the same as keeping the front.
proof fn lemma_trim_back_take(s: Seq<char>, hi: int)
    requires
        0 <= hi <= s.len(),
        forall|j: int| hi <= j < s.len() ==> is_trimmable(s[j]),
        hi > 0 ==> !is_trimmable(s[hi - 1]),
    ensures
        trim_back(s) == s.take(hi),
    decreases s.len() - hi,
{
    if hi == s.len() {
        assert(s.take(hi) =~= s);
    } else {
        lemma_trim_back_take(s.drop_last(), hi);
        assert(s.drop_last().take(hi) =~= s.take(hi));
    }
}

/// Whether a character is a blank, executably.
fn is_space_x(c: char) -> (r: bool)
    ensures
        r == is_space(c),
{
    c == ' ' || c == '\t' || c == '\r'
}

/// Whether a character is a parenthesis or brace, executably.
fn is_bracket_x(c: char) -> (r: bool)
    ensures
        r == is_bracket_char(c),
{
    c == '(' || c == ')' || c == '{' || c == '}'
}

/// Whether a character is trimmable, executably.
fn is_trim_x(c: char) -> (r: bool)
    ensures
        r == is_trimmable(c),
{
    is_space_x(c) || c == '\n'
}

/// The text with trimmable characters removed at both ends.
fn trim_str<'a>(s: &'a str) -> (r: &'a str)
    ensures
        r@ == spec_trim(s@),
        r@.len() <= s@.len(),
{
    let n = s.unicode_len();
    let mut lo: usize = 0;
    while lo < n && is_trim_x(s.get_char(lo))
        invariant
            lo <= n,
            n == s@.len(),
            forall|j: int| 0 <= j < lo ==> is_trimmable(s@[j]),
        decreases n - lo,
    {
        lo += 1;
    }
    proof {
        lemma_trim_front_skip(s@, lo as int);
    }
    if lo == n {
        let r = s.substring_char(0, 0);
        assert(s@.skip(lo as int) =~= Seq::<char>::empty());
        assert(r@ =~= spec_trim(s@));
        return r;
    }
    let mut hi: usize = n;
    while hi > lo && is_trim_x(s.get_char(hi - 1))
        invariant
            lo <= hi <= n,
            n == s@.len(),
            forall|j: int| hi <= j < n ==> is_trimmable(s@[j]),
        decreases hi,
    {
        hi -= 1;
    }
    assert(hi > lo);
    let r = s.substring_char(lo, hi);
    proof {
        lemma_trim_back_take(s@.skip(lo as int), (hi - lo) as int);
        assert(s@.skip(lo as int).take((hi - lo) as int) =~= s@.subrange(lo as int, hi as int));
    }
    r
}

/// The number of characters before the first line break, executably.
fn line_len_str(s: &str) -> (r: usize)
    ensures
        r == line_len(s@),
        r <= s@.len(),
{
    let n = s.unicode_len();
    let mut i: usize = 0;
    while i < n && s.get_char(i) != '\n'
        invariant
            i <= n,
            n == s@.len(),
            forall|j: int| 0 <= j < i ==> s@[j] != '\n',
        decreases n - i,
    {
        i += 1;
    }
    proof {
        lemma_line_len_at(s@, i as int);
    }
    i
}

/// The length of the leading word, executably.
fn word_len_str(s: &str) -> (r: usize)
    ensures
        r == word_len(s@),
        r <= s@.len(),
{
    let n = s.unicode_len();
    let mut i: usize = 0;
    while i < n && !is_space_x(s.get_char(i)) && s.get_char(i) != '\n' && !is_bracket_x(
        s.get_char(i),
    )
        invariant
            i <= n,
            n == s@.len(),
            forall|j: int|
                0 <= j < i ==> !is_space(s@[j]) && s@[j] != '\n' && !is_bracket_char(s@[j]),
        decreases n - i,
    {
        i += 1;
    }
    proof {
        lemma_word_len_at(s@, i as int);
    }
    i
}

/// Whether a character is a decimal digit, executably.
fn is_digit_x(c: char) -> (r: bool)
    ensures
        r == is_digit(c),
{
    let u = c as u32;
    48 <= u && u <= 57
}

/// One recognizer step, executably.
fn num_step_x(st: NumSt, c: char) -> (r: NumSt)
    ensures
        r == num_step(st, c),
{
    match st {
        NumSt::Start => if c == '+' || c == '-' {
            NumSt::SignSeen
        } else if is_digit_x(c) {
            NumSt::IntPart
        } else if c == '.' {
            NumSt::DotOnly
        } else if c == 'i' || c == 'I' {
            NumSt::WordI
        } else if c == 'n' || c == 'N' {
            NumSt::WordN
        } else {
            NumSt::Bad
        },
        NumSt::SignSeen => if is_digit_x(c) {
            NumSt::IntPart
        } else if c == '.' {
            NumSt::DotOnly
        } else if c == 'i' || c == 'I' {
            NumSt::WordI
        } else if c == 'n' || c == 'N' {
            NumSt::WordN
        } else {
            NumSt::Bad
        },
        NumSt::IntPart => if is_digit_x(c) {
            NumSt::IntPart
        } else if c == '.' {
            NumSt::FracPart
        } else if c == 'e' || c == 'E' {
            NumSt::ExpStart
        } else {
            NumSt::Bad
        },
        NumSt::DotOnly => if is_digit_x(c) {
            NumSt::FracPart
        } else {
            NumSt::Bad
        },
        NumSt::FracPart => if is_digit_x(c) {
            NumSt::FracPart
        } else if c == 'e' || c == 'E' {
            NumSt::ExpStart
        } else {
            NumSt::Bad
        },
        NumSt::ExpStart => if c == '+' || c == '-' {
            NumSt::ExpSign
        } else if is_digit_x(c) {
            NumSt::ExpPart
        } else {
            NumSt::Bad
        },
        NumSt::ExpSign => if is_digit_x(c) {
            NumSt::ExpPart
        } else {
            NumSt::Bad
        },
        NumSt::ExpPart => if is_digit_x(c) {
            NumSt::ExpPart
        } else {
            NumSt::Bad
        },
        NumSt::WordI => if c == 'n' || c == 'N' {
            NumSt::WordIn
        } else {
            NumSt::Bad
        },
        NumSt::WordIn => if c == 'f' || c == 'F' {
            NumSt::WordInf
        } else {
            NumSt::Bad
        },
        NumSt::WordInf => if c == 'i' || c == 'I' {
            NumSt::WordInfi
        } else {
            NumSt::Bad
        },
        NumSt::WordInfi => if c == 'n' || c == 'N' {
            NumSt::WordInfin
        } else {
            NumSt::Bad
        },
        NumSt::WordInfin => if c == 'i' || c == 'I' {
            NumSt::WordInfini
        } else {
            NumSt::Bad
        },
        NumSt::WordInfini => if c == 't' || c == 'T' {
            NumSt::WordInfinit
        } else {
            NumSt::Bad
        },
        NumSt::WordInfinit => if c == 'y' || c == 'Y' {
            NumSt::WordInfinity
        } else {
            NumSt::Bad
        },
        NumSt::WordInfinity => NumSt::Bad,
        NumSt::WordN => if c == 'a' || c == 'A' {
            NumSt::WordNa
        } else {
            NumSt::Bad
        },
        NumSt::WordNa => if c == 'n' || c == 'N' {
            NumSt::WordNan
        } else {
            NumSt::Bad
        },
        NumSt::WordNan => NumSt::Bad,
        NumSt::Bad => NumSt::Bad,
    }
}

/// Whether a word is a numeric literal, executably.
fn is_number_str(w: &str) -> (r: bool)
    ensures
        r == spec_is_number(w@),
{
    let n = w.unicode_len();
    let mut st = NumSt::Start;
    let mut i: usize = 0;
    assert(w@.skip(0) =~= w@);
    while i < n
        invariant
            i <= n,
            n == w@.len(),
            num_run(w@, NumSt::Start) == num_run(w@.skip(i as int), st),
        decreases n - i,
    {
        proof {
            assert(w@.skip(i as int).drop_first() =~= w@.skip(i as int + 1));
            assert(w@.skip(i as int)[0] == w@[i as int]);
        }
        st = num_step_x(st, w.get_char(i));
        i += 1;
    }
    assert(w@.skip(n as int).len() == 0);
    match st {
        NumSt::IntPart => true,
        NumSt::FracPart => true,
        NumSt::ExpPart => true,
        NumSt::WordInf => true,
        NumSt::WordInfinity => true,
        NumSt::WordNan => true,
        _ => false,
    }
}

/// The operator spelled by a word, executably.
fn op_of_str(w: &str) -> (r: Option<OpSet>)
    ensures
        r == spec_op(w@),
{
    let n = w.unicode_len();
    if n == 1 {
        let c = w.get_char(0);
        if c == '+' {
            Some(OpSet::Add)
        } else if c == '-' {
            Some(OpSet::Sub)
        } else if c == '*' {
            Some(OpSet::Mul)
        } else if c == '/' {
            Some(OpSet::Div)
        } else if c == '=' {
            Some(OpSet::Assign)
        } else {
            None
        }
    } else if n == 2 && w.get_char(0) == '*' && w.get_char(1) == '*' {
        Some(OpSet::Pow)
    } else {
        None
    }
}

/// The keyword spelled by a word, executably.
fn key_of_str(w: &str) -> (r: Option<KeySet>)
    ensures
        r == spec_key(w@),
{
    if w.unicode_len() == 4 && w.get_char(0) == 'f' && w.get_char(1) == 'u' && w.get_char(2) == 'n'
        && w.get_char(3) == 'c' {
        Some(KeySet::Func)
    } else {
        None
    }
}

/// The parenthesis or brace spelled by a word, executably.
fn par_of_str(w: &str) -> (r: Option<ParSet>)
    ensures
        r == spec_par(w@),
{
    if w.unicode_len() == 1 {
        let c = w.get_char(0);
        if c == '(' {
            Some(ParSet::LPar)
        } else if c == ')' {
            Some(ParSet::RPar)
        } else if c == '{' {
            Some(ParSet::LBkt)
        } else if c == '}' {
            Some(ParSet::RBkt)
        } else {
            None
        }
    } else {
        None
    }
}

/// The lexer: a symbol table for identifiers and the next free id.
pub struct Lexer {
    /// The identifier table: spelling to id.
    pub var_map: SSMap<Var>,
    /// The next id to hand out; ids 0 to `vid_ceil - 1` are taken.
    pub vid_ceil: Var,
}

impl Lexer {
    /// A sound lexer: a sound table whose interning state is sound.
    pub open spec fn wf(self) -> bool {
        &&& self.var_map.wf()
        &&& intern_wf(self.var_map@, self.vid_ceil)
    }

    /// A fresh lexer: an empty table, ids start at 0.
    pub fn new() -> (r: Lexer)
        ensures
            r.wf(),
            r.var_map@ == Map::<Seq<char>, Var>::empty(),
            r.vid_ceil == 0,
    {
        Lexer { var_map: SSMap::new(), vid_ceil: 0 }
    }

    /// The id of an operator spelling, exactly for `+ - * / ** =`.
    pub fn get_opid(&mut self, s: &str) -> (r: Option<u8>)
        ensures
            *final(self) == *old(self),
            match spec_op(s@) {
                Some(o) => r == Some(op_id(o)),
                None => r is None,
            },
    {
        let n = s.unicode_len();
        if n == 1 {
            let c = s.get_char(0);
            if c == '+' {
                Some(0)
            } else if c == '-' {
                Some(1)
            } else if c == '*' {
                Some(2)
            } else if c == '/' {
                Some(3)
            } else if c == '=' {
                Some(5)
            } else {
                None
            }
        } else if n == 2 {
            if s.get_char(0) == '*' && s.get_char(1) == '*' {
                Some(4)
            } else {
                None
            }
        } else {
            None
        }
    }

    /// The id of a keyword spelling, exactly for `func`.
    pub fn get_kid(&mut self, s: &str) -> (r: Option<u8>)
        ensures
            *final(self) == *old(self),
            match spec_key(s@) {
                Some(k) => r == Some(0u8),
                None => r is None,
            },
    {
        if s.unicode_len() == 4 {
            if s.get_char(0) == 'f' && s.get_char(1) == 'u' && s.get_char(2) == 'n' && s.get_char(3)
                == 'c' {
                Some(0)
            } else {
                None
            }
        } else {
            None
        }
    }

    /// The id of a parenthesis or brace spelling: `( ) { }`. Other texts are
    /// outside this function's domain.
    pub fn get_pid(&self, s: &str) -> (r: u8)
        requires
            spec_par(s@) is Some,
        ensures
            r == par_id(spec_par(s@).unwrap()),
    {
        let c = s.get_char(0);
        if c == '(' {
            0
        } else if c == ')' {
            1
        } else if c == '{' {
            2
        } else {
            3
        }
    }

    /// Interns an identifier spelling: a known text keeps its id, a fresh
    /// text receives the next id.
    pub fn get_vid(&mut self, s: &str) -> (r: Var)
        requires
            old(self).wf(),
            old(self).var_map@.contains_key(s@) || old(self).vid_ceil < Var::MAX,
        ensures
            final(self).wf(),
            ({
                let (id, vm2, c2) = spec_get_vid(old(self).var_map@, old(self).vid_ceil, s@);
                r == id && final(self).var_map@ == vm2 && final(self).vid_ceil == c2
            }),
    {
        proof {
            lemma_intern_step_sound(old(self).var_map@, old(self).vid_ceil, s@);
        }
        let existing: Option<Var> = match self.var_map.get_from_str(s) {
            Some(v) => Some(*v),
            None => None,
        };
        match existing {
            Some(v) => v,
            None => {
                let id = self.vid_ceil;
                self.var_map.insert_with_str(s, id);
                self.vid_ceil = id + 1;
                id
            },
        }
    }

    /// Classifies one word; `None` only when a fresh identifier meets an
    /// exhausted id space.
    fn classify(&mut self, w: &str) -> (r: Option<LexToken>)
        requires
            old(self).wf(),
        ensures
            final(self).wf(),
            match spec_classify(w@, old(self).var_map@, old(self).vid_ceil) {
                Some((t, vm2, c2)) => r matches Some(tok) && tok@ == t && final(self).var_map@
                    == vm2 && final(self).vid_ceil == c2,
                None => r is None && *final(self) == *old(self),
            },
    {
        match op_of_str(w) {
            Some(o) => {
                return Some(LexToken::Op(o));
            },
            None => {},
        }
        match key_of_str(w) {
            Some(k) => {
                return Some(LexToken::Key(k));
            },
            None => {},
        }
        match par_of_str(w) {
            Some(p) => {
                return Some(LexToken::Par(p));
            },
            None => {},
        }
        if is_number_str(w) {
            return Some(LexToken::Raw(w.to_owned()));
        }
        let existing: Option<Var> = match self.var_map.get_from_str(w) {
            Some(v) => Some(*v),
            None => None,
        };
        match existing {
            Some(v) => Some(LexToken::Var(v)),
            None => {
                if self.vid_ceil < Var::MAX {
                    Some(LexToken::Var(self.get_vid(w)))
                } else {
                    None
                }
            },
        }
    }

    /// Lexes the words of one line, appending their tokens to `out`.
    fn lex_words_str(
        &mut self,
        line: &str,
        ln: usize,
        wn: usize,
        out: &mut Vec<LexResult>,
    ) -> (r: Result<(), LexError>)
        requires
            old(self).wf(),
            wn >= 1,
            line@.len() + wn <= usize::MAX,
        ensures
            final(self).wf(),
            match spec_lex_words(line@, ln, wn, old(self).var_map@, old(self).vid_ceil) {
                Ok((ts, vm2, c2)) => r is Ok && toks_view(final(out)@) == toks_view(old(out)@) + ts
                    && final(self).var_map@ == vm2 && final(self).vid_ceil == c2,
                Err(pos) => r matches Err(e) && e@.info == pos && e@.msg
                    == "too many distinct identifiers"@,
            },
        decreases line@.len(),
    {
        let n = line.unicode_len();
        if n == 0 {
            assert(toks_view(out@) =~= toks_view(out@) + Seq::<LexResultS>::empty());
            return Ok(());
        }
        let c0 = line.get_char(0);
        if is_space_x(c0) || c0 == '\n' {
            let rest = line.substring_char(1, n);
            assert(rest@ =~= line@.drop_first());
            return self.lex_words_str(rest, ln, wn, out);
        }
        let k0 = word_len_str(line);
        let k: usize = if k0 == 0 {
            1
        } else {
            k0
        };
        let w = line.substring_char(0, k);
        let ghost vm0 = old(self).var_map@;
        let ghost c0v = old(self).vid_ceil;
        match self.classify(w) {
            None => Err(LexError::new("too many distinct identifiers", (ln, wn))),
            Some(tok) => {
                let ghost tok_s = tok@;
                let ghost vm_mid = self.var_map@;
                let ghost c_mid = self.vid_ceil;
                out.push(LexResult::new(tok, ln, wn));
                let ghost mid_out = out@;
                assert(toks_view(mid_out) =~= toks_view(old(out)@).push(
                    LexResultS { token: tok_s, info: (ln, wn) },
                ));
                let rest = line.substring_char(k, n);
                let rr = self.lex_words_str(rest, ln, wn + 1, out);
                proof {
                    let full = spec_lex_words(line@, ln, wn, vm0, c0v);
                    let sub = spec_lex_words(rest@, ln, (wn + 1) as usize, vm_mid, c_mid);
                    let one = LexResultS { token: tok_s, info: (ln, wn) };
                    if sub is Ok {
                        let (ts, vm3, c3) = sub.unwrap();
                        assert(full == Ok::<_, (usize, usize)>((seq![one] + ts, vm3, c3)));
                        assert(toks_view(old(out)@).push(one) + ts =~= toks_view(old(out)@) + (
                        seq![one] + ts));
                    }
                }
                match rr {
                    Ok(()) => Ok(()),
                    Err(e) => Err(e),
                }
            },
        }
    }

    /// Lexes the remaining lines, appending their tokens to `out`; each line
    /// is closed by a line-end token with word number 0.
    fn lex_lines_str(
        &mut self,
        rest: &str,
        ln: usize,
        out: &mut Vec<LexResult>,
    ) -> (r: Result<(), LexError>)
        requires
            old(self).wf(),
            ln >= 1,
            rest@.len() + ln <= usize::MAX,
        ensures
            final(self).wf(),
            match spec_lex_lines(rest@, ln, old(self).var_map@, old(self).vid_ceil) {
                Ok((ts, vm2, c2)) => r is Ok && toks_view(final(out)@) == toks_view(old(out)@) + ts
                    && final(self).var_map@ == vm2 && final(self).vid_ceil == c2,
                Err(pos) => r matches Err(e) && e@.info == pos && e@.msg
                    == "too many distinct identifiers"@,
            },
        decreases rest@.len(),
    {
        let ghost vm0 = old(self).var_map@;
        let ghost c0v = old(self).vid_ceil;
        let n = rest.unicode_len();
        let k = line_len_str(rest);
        let line = rest.substring_char(0, k);
        let rw = self.lex_words_str(line, ln, 1, out);
        match rw {
            Err(e) => Err(e),
            Ok(()) => {
                let ghost vm_mid = self.var_map@;
                let ghost c_mid = self.vid_ceil;
                let ghost pre_push = out@;
                out.push(LexResult::new(LexToken::Endl, ln, 0));
                let ghost mid_out = out@;
                let ghost endl = LexResultS { token: TokS::Endl, info: (ln, 0) };
                proof {
                    let ts = spec_lex_words(line@, ln, 1, vm0, c0v).unwrap().0;
                    assert(toks_view(pre_push) == toks_view(old(out)@) + ts);
                    assert(toks_view(mid_out) =~= toks_view(pre_push).push(endl));
                    assert((toks_view(old(out)@) + ts).push(endl) =~= toks_view(old(out)@)
                        + ts.push(endl));
                }
                assert(toks_view(mid_out) == toks_view(old(out)@) + spec_lex_words(
                    line@,
                    ln,
                    1,
                    vm0,
                    c0v,
                ).unwrap().0.push(endl));
                if k == n {
                    Ok(())
                } else {
                    let rest2 = rest.substring_char(k + 1, n);
                    let rr = self.lex_lines_str(rest2, ln + 1, out);
                    proof {
                        let full = spec_lex_lines(rest@, ln, vm0, c0v);
                        let line_toks = spec_lex_words(line@, ln, 1, vm0, c0v).unwrap().0.push(
                            endl,
                        );
                        let sub = spec_lex_lines(rest2@, (ln + 1) as usize, vm_mid, c_mid);
                        if sub is Ok {
                            let (ts2, vm3, c3) = sub.unwrap();
                            assert(full == Ok::<_, (usize, usize)>((line_toks + ts2, vm3, c3)));
                            assert((toks_view(old(out)@) + line_toks) + ts2 =~= toks_view(
                                old(out)@,
                            ) + (line_toks + ts2));
                        }
                    }
                    rr
                }
            },
        }
    }

    /// Lexes a whole source text. The result is a pure function of the text
    /// and the lexer's interning state: the token sequence of the trimmed
    /// text, line by line, each line closed by its line-end token — so the
    /// sequence always ends with one, even for a blank source. The only
    /// possible failure is an exhausted identifier id space.
    pub fn lex(&mut self, code: &str) -> (r: Result<Vec<LexResult>, LexError>)
        requires
            old(self).wf(),
            code@.len() < usize::MAX,
        ensures
            final(self).wf(),
            match spec_lex(code@, old(self).var_map@, old(self).vid_ceil) {
                Ok((ts, vm2, c2)) => r matches Ok(v) && toks_view(v@) == ts
                    && final(self).var_map@ == vm2 && final(self).vid_ceil == c2,
                Err(pos) => r matches Err(e) && e@.info == pos && e@.msg
                    == "too many distinct identifiers"@,
            },
    {
        let trimmed = trim_str(code);
        let mut out: Vec<LexResult> = Vec::new();
        let rr = self.lex_lines_str(trimmed, 1, &mut out);
        assert(toks_view(Seq::<LexResult>::empty()) =~= Seq::<LexResultS>::empty());
        match rr {
            Ok(()) => Ok(out),
            Err(e) => Err(e),
        }
    }
}

/// Tokenization is deterministic: from equal interning states, the same text
/// always yields the same token sequence and the same final state. The
/// lexer's contract makes its output this function of its inputs, so two
/// runs over one text agree token for token.
pub proof fn lemma_tokenize_deterministic(
    a: Lexer,
    b: Lexer,
    code: Seq<char>,
)
    requires
        a.var_map@ == b.var_map@,
        a.vid_ceil == b.vid_ceil,
    ensures
        spec_lex(code, a.var_map@, a.vid_ceil) == spec_lex(code, b.var_map@, b.vid_ceil),
{
}

} // verus!
