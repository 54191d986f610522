//! The configuration grammar: a sequence of parenthesised lists of atoms.
use vstd::prelude::*;

verus! {

/// Mathematical form of an `SExpr`.
pub enum SExpV {
    Atom(Seq<char>),
    List(Seq<SExpV>),
}

/// A parsed expression: an atom, or a list of expressions.
#[derive(Debug, PartialEq)]
pub enum SExpr {
    Atom(String),
    List(Vec<SExpr>),
}

impl SExpr {
    pub open spec fn view(&self) -> SExpV
        decreases self,
    {
        match self {
            SExpr::Atom(a) => SExpV::Atom(a@),
            SExpr::List(xs) => SExpV::List(
                Seq::new(
                    xs@.len(),
                    |i: int|
                        if 0 <= i < xs@.len() {
                            xs@[i].view()
                        } else {
                            SExpV::Atom(seq![])
                        },
                ),
            ),
        }
    }
}

/// The views of a sequence of expressions.
pub open spec fn sexprs_view(xs: Seq<SExpr>) -> Seq<SExpV> {
    Seq::new(xs.len(), |i: int| xs[i]@)
}

/// Why a configuration text was refused.
#[derive(Debug, PartialEq, Eq)]
pub enum ConfigError {
    /// The text is not a sequence of well-formed lists.
    Syntax,
    /// A `template` directive names no file.
    MissingTemplateName,
}

pub open spec fn is_space(c: char) -> bool {
    c == ' ' || c == '\t' || c == '\n' || c == '\r'
}

/// A character that belongs to an atom: anything but whitespace and parentheses.
pub open spec fn is_atom_char(c: char) -> bool {
    !is_space(c) && c != '(' && c != ')'
}

/// Where a left-to-right reading of the text stands.
pub enum ScanState {
    /// Between lists, with the lists read so far.
    Outside(Seq<SExpV>),
    /// Inside a list: the lists before it, its atoms so far, and the atom being read.
    Inside(Seq<SExpV>, Seq<SExpV>, Seq<char>),
    /// The text cannot be read.
    Failed,
}

/// `atoms` with `cur` added when it is a non-empty atom.
pub open spec fn flushed(atoms: Seq<SExpV>, cur: Seq<char>) -> Seq<SExpV> {
    if cur.len() > 0 {
        atoms.push(SExpV::Atom(cur))
    } else {
        atoms
    }
}

/// The reading state after one more character.
pub open spec fn step(st: ScanState, c: char) -> ScanState {
    match st {
        ScanState::Outside(ls) => if is_space(c) {
            ScanState::Outside(ls)
        } else if c == '(' {
            ScanState::Inside(ls, seq![], seq![])
        } else {
            ScanState::Failed
        },
        ScanState::Inside(ls, atoms, cur) => if is_atom_char(c) {
            ScanState::Inside(ls, atoms, cur.push(c))
        } else if is_space(c) {
            ScanState::Inside(ls, flushed(atoms, cur), seq![])
        } else if c == ')' {
            ScanState::Outside(ls.push(SExpV::List(flushed(atoms, cur))))
        } else {
            ScanState::Failed
        },
        ScanState::Failed => ScanState::Failed,
    }
}

/// The reading state after all of `s`.
pub open spec fn scan(s: Seq<char>) -> ScanState
    decreases s.len(),
{
    if s.len() == 0 {
        ScanState::Outside(seq![])
    } else {
        step(scan(s.drop_last()), s.last())
    }
}

/// The lists that `s` holds, when it is whitespace-separated parenthesised lists of
/// atoms and nothing else.
pub open spec fn parsed(s: Seq<char>) -> Option<Seq<SExpV>> {
    match scan(s) {
        ScanState::Outside(ls) => Some(ls),
        _ => None,
    }
}

proof fn lemma_failure_persists(s: Seq<char>, i: int)
    requires
        0 <= i <= s.len(),
        scan(s.subrange(0, i)) is Failed,
    ensures
        scan(s) is Failed,
    decreases s.len() - i,
{
    if i == s.len() {
        assert(s.subrange(0, i) =~= s);
    } else {
        assert(s.subrange(0, i + 1).drop_last() =~= s.subrange(0, i));
        lemma_failure_persists(s, i + 1);
    }
}

fn char_is_space(c: char) -> (r: bool)
    ensures
        r == is_space(c),
{
    c == ' ' || c == '\t' || c == '\n' || c == '\r'
}

/// Parses a configuration text into its lists of atoms.
pub fn parse_sexp(string: &str) -> (r: Result<Vec<SExpr>, ConfigError>)
    ensures
        r matches Ok(v) ==> parsed(string@) == Some(sexprs_view(v@)),
        r matches Err(e) ==> parsed(string@) is None && e == ConfigError::Syntax,
{
    let ghost s = string@;
    let n = string.unicode_len();
    let mut lists: Vec<SExpr> = Vec::new();
    let mut atoms: Vec<SExpr> = Vec::new();
    let mut inside = false;
    let mut in_atom = false;
    let mut start: usize = 0;
    let mut i: usize = 0;
    assert(s.subrange(0, 0) =~= Seq::<char>::empty());
    assert(sexprs_view(lists@) =~= Seq::<SExpV>::empty());
    while i < n
        invariant
            n == s.len(),
            s == string@,
            i <= n,
            start <= i,
            in_atom ==> inside && start < i,
            !inside ==> scan(s.subrange(0, i as int)) == ScanState::Outside(sexprs_view(lists@)),
            inside ==> scan(s.subrange(0, i as int)) == ScanState::Inside(
                sexprs_view(lists@),
                sexprs_view(atoms@),
                if in_atom {
                    s.subrange(start as int, i as int)
                } else {
                    seq![]
                },
            ),
        decreases n - i,
    {
        let c = string.get_char(i);
        let ghost prev = s.subrange(0, i as int);
        assert(s.subrange(0, i + 1).drop_last() =~= prev);
        assert(s.subrange(0, i + 1).last() == c);
        let ghost cur = if in_atom {
            s.subrange(start as int, i as int)
        } else {
            seq![]
        };
        if !inside {
            if char_is_space(c) {
            } else if c == '(' {
                inside = true;
                in_atom = false;
                atoms = Vec::new();
                assert(sexprs_view(atoms@) =~= Seq::<SExpV>::empty());
            } else {
                proof {
                    lemma_failure_persists(s, i + 1);
                }
                return Err(ConfigError::Syntax);
            }
        } else if !char_is_space(c) && c != '(' && c != ')' {
            if !in_atom {
                in_atom = true;
                start = i;
            }
            assert(s.subrange(start as int, i + 1) =~= cur.push(c));
        } else if c == '(' {
            proof {
                lemma_failure_persists(s, i + 1);
            }
            return Err(ConfigError::Syntax);
        } else {
            if in_atom {
                let text = string.substring_char(start, i).to_owned();
                let ghost before = atoms@;
                atoms.push(SExpr::Atom(text));
                assert(sexprs_view(atoms@) =~= sexprs_view(before).push(SExpV::Atom(cur)));
                in_atom = false;
            }
            assert(sexprs_view(atoms@) == flushed(sexprs_view(atoms@), seq![]));
            if c == ')' {
                let done = SExpr::List(atoms);
                assert(done@->List_0 =~= sexprs_view(atoms@));
                let ghost before = lists@;
                lists.push(done);
                assert(sexprs_view(lists@) =~= sexprs_view(before).push(done@));
                atoms = Vec::new();
                inside = false;
            }
        }
        i = i + 1;
    }
    assert(s.subrange(0, n as int) =~= s);
    if inside {
        Err(ConfigError::Syntax)
    } else {
        Ok(lists)
    }
}

} // verus!
