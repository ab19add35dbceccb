//! The closed vocabulary of general-education codes.

use crate::text::chars_of;
use vstd::prelude::*;

verus! {

/// The members of the `PE` family of codes.
#[derive(Debug, Clone, Copy, PartialEq, Eq, Structural)]
pub enum PE {
    E,
    H,
    T,
}

/// The members of the `PR` family of codes.
#[derive(Debug, Clone, Copy, PartialEq, Eq, Structural)]
pub enum PR {
    E,
    C,
    S,
}

/// A general-education requirement that a course satisfies.
#[derive(Debug, Clone, Copy, PartialEq, Eq, Structural)]
pub enum GenEds {
    MF,
    CC,
    ER,
    IM,
    SI,
    SR,
    TA,
    PE(PE),
    PR(PR),
    C1,
    C2,
}

impl GenEds {
    /// The code by which the catalog writes this requirement.
    pub open spec fn code(self) -> Seq<char> {
        match self {
            GenEds::MF => seq!['M', 'F'],
            GenEds::CC => seq!['C', 'C'],
            GenEds::ER => seq!['E', 'R'],
            GenEds::IM => seq!['I', 'M'],
            GenEds::SI => seq!['S', 'I'],
            GenEds::SR => seq!['S', 'R'],
            GenEds::TA => seq!['T', 'A'],
            GenEds::C1 => seq!['C', '1'],
            GenEds::C2 => seq!['C', '2'],
            GenEds::PE(PE::E) => seq!['P', 'E', '-', 'E'],
            GenEds::PE(PE::H) => seq!['P', 'E', '-', 'H'],
            GenEds::PE(PE::T) => seq!['P', 'E', '-', 'T'],
            GenEds::PR(PR::E) => seq!['P', 'R', '-', 'E'],
            GenEds::PR(PR::C) => seq!['P', 'R', '-', 'C'],
            GenEds::PR(PR::S) => seq!['P', 'R', '-', 'S'],
        }
    }
}

/// The requirement whose code is `code`, written exactly so; any other text
/// names none.
pub open spec fn gen_ed_code(code: Seq<char>) -> Option<GenEds> {
    if exists|g: GenEds| #[trigger] g.code() == code {
        Some(choose|g: GenEds| #[trigger] g.code() == code)
    } else {
        None
    }
}

/// No two requirements share a code, so a code names the requirement it was
/// written for and no other.
pub proof fn lemma_code_names_one(g: GenEds)
    ensures
        gen_ed_code(g.code()) == Some(g),
{
    let h = choose|h: GenEds| #[trigger] h.code() == g.code();
    assert(h.code() =~= g.code());
    assert(h.code().len() == g.code().len());
    assert(h.code()[0] == g.code()[0]);
    assert(h.code()[1] == g.code()[1]);
    if g.code().len() == 4 {
        assert(h.code()[3] == g.code()[3]);
    }
}

/// What the characters of a text decide: the requirement that it names.
pub proof fn lemma_code_by_characters(code: Seq<char>)
    ensures
        code.len() != 2 && code.len() != 4 ==> gen_ed_code(code) is None,
        code.len() == 2 ==> gen_ed_code(code) == if code[0] == 'M' && code[1] == 'F' {
            Some(GenEds::MF)
        } else if code[0] == 'C' && code[1] == 'C' {
            Some(GenEds::CC)
        } else if code[0] == 'E' && code[1] == 'R' {
            Some(GenEds::ER)
        } else if code[0] == 'I' && code[1] == 'M' {
            Some(GenEds::IM)
        } else if code[0] == 'S' && code[1] == 'I' {
            Some(GenEds::SI)
        } else if code[0] == 'S' && code[1] == 'R' {
            Some(GenEds::SR)
        } else if code[0] == 'T' && code[1] == 'A' {
            Some(GenEds::TA)
        } else if code[0] == 'C' && code[1] == '1' {
            Some(GenEds::C1)
        } else if code[0] == 'C' && code[1] == '2' {
            Some(GenEds::C2)
        } else {
            None
        },
        code.len() == 4 ==> gen_ed_code(code) == if code[0] != 'P' || code[2] != '-' {
            None
        } else if code[1] == 'E' && code[3] == 'E' {
            Some(GenEds::PE(PE::E))
        } else if code[1] == 'E' && code[3] == 'H' {
            Some(GenEds::PE(PE::H))
        } else if code[1] == 'E' && code[3] == 'T' {
            Some(GenEds::PE(PE::T))
        } else if code[1] == 'R' && code[3] == 'E' {
            Some(GenEds::PR(PR::E))
        } else if code[1] == 'R' && code[3] == 'C' {
            Some(GenEds::PR(PR::C))
        } else if code[1] == 'R' && code[3] == 'S' {
            Some(GenEds::PR(PR::S))
        } else {
            None
        },
{
    if exists|g: GenEds| #[trigger] g.code() == code {
        let g = choose|g: GenEds| #[trigger] g.code() == code;
        lemma_code_names_one(g);
        assert(code.len() == g.code().len());
        assert(code[0] == g.code()[0]);
        assert(code[1] == g.code()[1]);
        if code.len() == 4 {
            assert(code[2] == g.code()[2]);
            assert(code[3] == g.code()[3]);
        }
    } else {
        assert forall|g: GenEds| #[trigger] g.code() != code by {}
        if code.len() == 2 {
            let a = code[0];
            let b = code[1];
            assert(code =~= seq![a, b]);
            assert(GenEds::MF.code() != code);
            assert(GenEds::CC.code() != code);
            assert(GenEds::ER.code() != code);
            assert(GenEds::IM.code() != code);
            assert(GenEds::SI.code() != code);
            assert(GenEds::SR.code() != code);
            assert(GenEds::TA.code() != code);
            assert(GenEds::C1.code() != code);
            assert(GenEds::C2.code() != code);
        } else if code.len() == 4 {
            let a = code[0];
            let b = code[1];
            let c = code[2];
            let d = code[3];
            assert(code =~= seq![a, b, c, d]);
            assert(GenEds::PE(PE::E).code() != code);
            assert(GenEds::PE(PE::H).code() != code);
            assert(GenEds::PE(PE::T).code() != code);
            assert(GenEds::PR(PR::E).code() != code);
            assert(GenEds::PR(PR::C).code() != code);
            assert(GenEds::PR(PR::S).code() != code);
        }
    }
}

impl GenEds {
    /// Maps a catalog code to its requirement. An unknown code is not an
    /// error: it maps to `None`.
    pub fn from_str(input: &str) -> (r: Option<GenEds>)
        ensures
            r == gen_ed_code(input@),
    {
        let cs = chars_of(input);
        proof {
            lemma_code_by_characters(input@);
        }
        if cs.len() == 2 {
            let a = cs[0];
            let b = cs[1];
            if a == 'M' && b == 'F' {
                Some(GenEds::MF)
            } else if a == 'C' && b == 'C' {
                Some(GenEds::CC)
            } else if a == 'E' && b == 'R' {
                Some(GenEds::ER)
            } else if a == 'I' && b == 'M' {
                Some(GenEds::IM)
            } else if a == 'S' && b == 'I' {
                Some(GenEds::SI)
            } else if a == 'S' && b == 'R' {
                Some(GenEds::SR)
            } else if a == 'T' && b == 'A' {
                Some(GenEds::TA)
            } else if a == 'C' && b == '1' {
                Some(GenEds::C1)
            } else if a == 'C' && b == '2' {
                Some(GenEds::C2)
            } else {
                None
            }
        } else if cs.len() == 4 && cs[0] == 'P' && cs[2] == '-' {
            let family = cs[1];
            let member = cs[3];
            if family == 'E' {
                if member == 'E' {
                    Some(GenEds::PE(PE::E))
                } else if member == 'H' {
                    Some(GenEds::PE(PE::H))
                } else if member == 'T' {
                    Some(GenEds::PE(PE::T))
                } else {
                    None
                }
            } else if family == 'R' {
                if member == 'E' {
                    Some(GenEds::PR(PR::E))
                } else if member == 'C' {
                    Some(GenEds::PR(PR::C))
                } else if member == 'S' {
                    Some(GenEds::PR(PR::S))
                } else {
                    None
                }
            } else {
                None
            }
        } else {
            None
        }
    }
}

} // verus!
