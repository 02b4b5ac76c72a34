//! What the keywords written for parsed constructs say: each reads back as
//! the construct it was written for.
use vstd::prelude::*;

use crate::commands::{selector_of, selector_view, VersionSelector};
use crate::dremio_format::selector_parts;
use crate::sql_format::{join_prefix_spec, predicate_keyword};
use crate::sql_model::{JoinOpKind, PredicateKind};

verus! {

/// Whether a unary test is negated (`IS NOT ...`).
pub open spec fn negated(t: PredicateKind) -> bool {
    t is IsNotNull || t is IsNotTrue || t is IsNotFalse || t is IsNotUnknown
}

/// The value a unary test compares with.
pub open spec fn tested_value(t: PredicateKind) -> Seq<char> {
    if t is IsNull || t is IsNotNull {
        "NULL"@
    } else if t is IsTrue || t is IsNotTrue {
        "TRUE"@
    } else if t is IsFalse || t is IsNotFalse {
        "FALSE"@
    } else {
        "UNKNOWN"@
    }
}

/// The keyword of a unary test says what is tested: `IS`, then `NOT`
/// exactly when the test is negated, then the value it compares with.
pub proof fn law_predicate_keyword_names_the_test(t: PredicateKind)
    ensures
        predicate_keyword(t) == "IS "@ + (if negated(t) {
            "NOT "@
        } else {
            Seq::empty()
        }) + tested_value(t),
{
    reveal_strlit("IS ");
    reveal_strlit("NOT ");
    reveal_strlit("NULL");
    reveal_strlit("TRUE");
    reveal_strlit("FALSE");
    reveal_strlit("UNKNOWN");
    reveal_strlit("IS NULL");
    reveal_strlit("IS NOT NULL");
    reveal_strlit("IS TRUE");
    reveal_strlit("IS NOT TRUE");
    reveal_strlit("IS FALSE");
    reveal_strlit("IS NOT FALSE");
    reveal_strlit("IS UNKNOWN");
    reveal_strlit("IS NOT UNKNOWN");
    let rhs = "IS "@ + (if negated(t) {
        "NOT "@
    } else {
        Seq::<char>::empty()
    }) + tested_value(t);
    assert(predicate_keyword(t) =~= rhs);
}

/// The join a join keyword names, as SQL reads it: `LEFT JOIN` and `LEFT
/// OUTER JOIN` are the same left join, and so on.
pub open spec fn join_read(w: Seq<char>) -> Option<JoinOpKind> {
    if w == "JOIN"@ {
        Some(JoinOpKind::Join)
    } else if w == "INNER JOIN"@ {
        Some(JoinOpKind::Inner)
    } else if w == "LEFT JOIN"@ || w == "LEFT OUTER JOIN"@ {
        Some(JoinOpKind::Left)
    } else if w == "RIGHT JOIN"@ || w == "RIGHT OUTER JOIN"@ {
        Some(JoinOpKind::Right)
    } else if w == "FULL JOIN"@ || w == "FULL OUTER JOIN"@ {
        Some(JoinOpKind::FullOuter)
    } else if w == "CROSS JOIN"@ {
        Some(JoinOpKind::CrossJoin)
    } else if w == "SEMI JOIN"@ {
        Some(JoinOpKind::Semi)
    } else if w == "LEFT SEMI JOIN"@ {
        Some(JoinOpKind::LeftSemi)
    } else if w == "RIGHT SEMI JOIN"@ {
        Some(JoinOpKind::RightSemi)
    } else if w == "ANTI JOIN"@ {
        Some(JoinOpKind::Anti)
    } else if w == "LEFT ANTI JOIN"@ {
        Some(JoinOpKind::LeftAnti)
    } else if w == "RIGHT ANTI JOIN"@ {
        Some(JoinOpKind::RightAnti)
    } else if w == "CROSS APPLY"@ {
        Some(JoinOpKind::CrossApply)
    } else if w == "OUTER APPLY"@ {
        Some(JoinOpKind::OuterApply)
    } else if w == "ASOF JOIN"@ {
        Some(JoinOpKind::AsOf)
    } else if w == "STRAIGHT_JOIN"@ {
        Some(JoinOpKind::StraightJoin)
    } else {
        None
    }
}

/// A join as SQL means it: an outer left or right join is the left or
/// right join.
pub open spec fn join_meaning(op: JoinOpKind) -> JoinOpKind {
    match op {
        JoinOpKind::LeftOuter => JoinOpKind::Left,
        JoinOpKind::RightOuter => JoinOpKind::Right,
        _ => op,
    }
}

/// The keyword written for a join reads back as the same join: a right
/// join is never written as a left one, an anti join never as a semi join.
pub proof fn law_join_keyword_reads_back(op: JoinOpKind)
    ensures
        join_read(join_prefix_spec(op)) == Some(join_meaning(op)),
{
    reveal_strlit("JOIN");
    reveal_strlit("INNER JOIN");
    reveal_strlit("LEFT JOIN");
    reveal_strlit("LEFT OUTER JOIN");
    reveal_strlit("RIGHT JOIN");
    reveal_strlit("RIGHT OUTER JOIN");
    reveal_strlit("FULL JOIN");
    reveal_strlit("FULL OUTER JOIN");
    reveal_strlit("CROSS JOIN");
    reveal_strlit("SEMI JOIN");
    reveal_strlit("LEFT SEMI JOIN");
    reveal_strlit("RIGHT SEMI JOIN");
    reveal_strlit("ANTI JOIN");
    reveal_strlit("LEFT ANTI JOIN");
    reveal_strlit("RIGHT ANTI JOIN");
    reveal_strlit("CROSS APPLY");
    reveal_strlit("OUTER APPLY");
    reveal_strlit("ASOF JOIN");
    reveal_strlit("STRAIGHT_JOIN");
    assert("JOIN"@ =~= seq!['J', 'O', 'I', 'N']);
    assert("INNER JOIN"@ =~= seq!['I', 'N', 'N', 'E', 'R', ' ', 'J', 'O', 'I', 'N']);
    assert("LEFT JOIN"@ =~= seq!['L', 'E', 'F', 'T', ' ', 'J', 'O', 'I', 'N']);
    assert("LEFT OUTER JOIN"@ =~= seq!['L', 'E', 'F', 'T', ' ', 'O', 'U', 'T', 'E', 'R', ' ', 'J', 'O', 'I', 'N']);
    assert("RIGHT JOIN"@ =~= seq!['R', 'I', 'G', 'H', 'T', ' ', 'J', 'O', 'I', 'N']);
    assert("RIGHT OUTER JOIN"@ =~= seq!['R', 'I', 'G', 'H', 'T', ' ', 'O', 'U', 'T', 'E', 'R', ' ', 'J', 'O', 'I', 'N']);
    assert("FULL JOIN"@ =~= seq!['F', 'U', 'L', 'L', ' ', 'J', 'O', 'I', 'N']);
    assert("FULL OUTER JOIN"@ =~= seq!['F', 'U', 'L', 'L', ' ', 'O', 'U', 'T', 'E', 'R', ' ', 'J', 'O', 'I', 'N']);
    assert("CROSS JOIN"@ =~= seq!['C', 'R', 'O', 'S', 'S', ' ', 'J', 'O', 'I', 'N']);
    assert("SEMI JOIN"@ =~= seq!['S', 'E', 'M', 'I', ' ', 'J', 'O', 'I', 'N']);
    assert("LEFT SEMI JOIN"@ =~= seq!['L', 'E', 'F', 'T', ' ', 'S', 'E', 'M', 'I', ' ', 'J', 'O', 'I', 'N']);
    assert("RIGHT SEMI JOIN"@ =~= seq!['R', 'I', 'G', 'H', 'T', ' ', 'S', 'E', 'M', 'I', ' ', 'J', 'O', 'I', 'N']);
    assert("ANTI JOIN"@ =~= seq!['A', 'N', 'T', 'I', ' ', 'J', 'O', 'I', 'N']);
    assert("LEFT ANTI JOIN"@ =~= seq!['L', 'E', 'F', 'T', ' ', 'A', 'N', 'T', 'I', ' ', 'J', 'O', 'I', 'N']);
    assert("RIGHT ANTI JOIN"@ =~= seq!['R', 'I', 'G', 'H', 'T', ' ', 'A', 'N', 'T', 'I', ' ', 'J', 'O', 'I', 'N']);
    assert("CROSS APPLY"@ =~= seq!['C', 'R', 'O', 'S', 'S', ' ', 'A', 'P', 'P', 'L', 'Y']);
    assert("OUTER APPLY"@ =~= seq!['O', 'U', 'T', 'E', 'R', ' ', 'A', 'P', 'P', 'L', 'Y']);
    assert("ASOF JOIN"@ =~= seq!['A', 'S', 'O', 'F', ' ', 'J', 'O', 'I', 'N']);
    assert("STRAIGHT_JOIN"@ =~= seq!['S', 'T', 'R', 'A', 'I', 'G', 'H', 'T', '_', 'J', 'O', 'I', 'N']);
}

/// The selector keyword and target written in a version clause read back,
/// by the version-clause reader, as the same selector: a tag is never
/// written as a branch.
pub proof fn law_version_selector_reads_back(s: VersionSelector)
    ensures
        selector_of(selector_parts(s).0, selector_parts(s).1) == Some(selector_view(s)),
{
    reveal_strlit("BRANCH");
    reveal_strlit("TAG");
    reveal_strlit("REF");
    reveal_strlit("COMMIT");
    assert("BRANCH"@ =~= seq!['B', 'R', 'A', 'N', 'C', 'H']);
    assert("TAG"@ =~= seq!['T', 'A', 'G']);
    assert("REF"@ =~= seq!['R', 'E', 'F']);
    assert("COMMIT"@ =~= seq!['C', 'O', 'M', 'M', 'I', 'T']);
}

} // verus!
