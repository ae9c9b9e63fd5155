//! Properties that relate [`crate::escaper::escape`] and
//! [`crate::parser::parse`].

use vstd::prelude::*;

use crate::ast::NodeModel;
use crate::ast::ParseError;
use crate::escaper::escaped;
use crate::escaper::escaped_char;
use crate::grammar::is_special;
use crate::grammar::parse_items;
use crate::grammar::parsed;

verus! {

/// Text is plain when none of its characters is special.
pub open spec fn plain(s: Seq<char>) -> bool {
    forall|i: int| 0 <= i < s.len() ==> !is_special(#[trigger] s[i])
}

/// Escaping plain text leaves it unchanged.
proof fn lemma_escaped_plain(s: Seq<char>)
    requires
        plain(s),
    ensures
        escaped(s) == s,
    decreases s.len(),
{
    if s.len() > 0 {
        let rest = s.subrange(1, s.len() as int);
        lemma_escaped_plain(rest);
        assert(escaped_char(s[0]) + rest =~= s);
    }
}

/// Plain text parses to a single text node holding exactly that text; the
/// empty input parses to no node at all.
proof fn lemma_parse_items_plain(s: Seq<char>, i: int)
    requires
        0 <= i <= s.len(),
        plain(s),
    ensures
        parse_items(s, i, false) == Ok::<(Seq<NodeModel>, int), ParseError>(
            (
                if i < s.len() {
                    seq![NodeModel::Text(s.subrange(i, s.len() as int))]
                } else {
                    Seq::<NodeModel>::empty()
                },
                s.len() as int,
            ),
        ),
    decreases s.len() - i,
{
    if i < s.len() {
        assert(!is_special(s[i]));
        lemma_parse_items_plain(s, i + 1);
        if i + 1 < s.len() {
            let whole = s.subrange(i, s.len() as int);
            let rest = s.subrange(i + 1, s.len() as int);
            assert(seq![s[i]] + rest =~= whole);
            assert(seq![NodeModel::Text(whole)] + seq![NodeModel::Text(rest)].subrange(1, 1)
                =~= seq![NodeModel::Text(whole)]);
        } else {
            let whole = s.subrange(i, s.len() as int);
            assert(seq![s[i]] =~= whole);
            assert(seq![NodeModel::Text(whole)] + Seq::<NodeModel>::empty()
                =~= seq![NodeModel::Text(whole)]);
        }
    }
}

/// Round trip on escaped plain text: parsing the escape of nonempty plain
/// text yields exactly one text node holding that text.  (The empty text is
/// the one exception: the empty document parses to no node at all.)
pub proof fn theorem_escape_round_trip(s: Seq<char>)
    requires
        s.len() > 0,
        plain(s),
    ensures
        parsed(escaped(s)) == Ok::<Seq<NodeModel>, ParseError>(seq![NodeModel::Text(s)]),
{
    lemma_escaped_plain(s);
    lemma_parse_items_plain(s, 0);
    assert(s.subrange(0, s.len() as int) =~= s);
}

} // verus!
