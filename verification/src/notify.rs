//! The message that tells people of a plan's end.

use crate::text::{cat5, dec, dec_i64, to_chars};
use vstd::prelude::*;

verus! {

/// A character as it is written in HTML.
pub open spec fn escaped_char(c: char) -> Seq<char> {
    if c == '&' {
        "&amp;"@
    } else if c == '<' {
        "&lt;"@
    } else if c == '>' {
        "&gt;"@
    } else {
        seq![c]
    }
}

/// A text as it is written in HTML.
pub open spec fn escaped(s: Seq<char>) -> Seq<char>
    decreases s.len(),
{
    if s.len() == 0 {
        Seq::empty()
    } else {
        escaped(s.drop_last()) + escaped_char(s.last())
    }
}

/// A text as it is written in HTML.
pub fn html_escape(s: &str) -> (r: String)
    ensures
        r@ == escaped(s@),
{
    let cs = to_chars(s);
    let mut out = String::new();
    let mut i: usize = 0;
    assert(cs@.take(0) =~= Seq::<char>::empty());
    while i < cs.len()
        invariant
            cs@ == s@,
            i <= cs@.len(),
            out@ == escaped(cs@.take(i as int)),
        decreases cs@.len() - i,
    {
        assert(cs@.take(i + 1).drop_last() =~= cs@.take(i as int));
        let ghost before = out@;
        let c = cs[i];
        if c == '&' {
            out.append("&amp;");
        } else if c == '<' {
            out.append("&lt;");
        } else if c == '>' {
            out.append("&gt;");
        } else {
            out.push(c);
        }
        assert(out@ =~= before + escaped_char(c));
        i += 1;
    }
    assert(cs@.take(i as int) =~= cs@);
    out
}

/// The message on the end of a plan.
pub fn plan_done_text(plan_id: i64, plan_name: &str) -> (r: String)
    ensures
        r@ == "\u{1f7e2} <b>Plan completed</b>\n\n"@ + escaped(plan_name@)
            + "\n\n<code>Plan #"@ + dec(plan_id as int) + "</code>"@,
{
    cat5(
        "\u{1f7e2} <b>Plan completed</b>\n\n",
        html_escape(plan_name).as_str(),
        "\n\n<code>Plan #",
        dec_i64(plan_id).as_str(),
        "</code>",
    )
}

/// No text can open or close an element: what is written has no angle brackets.
pub proof fn law_no_markup(s: Seq<char>)
    ensures
        forall|i: int|
            0 <= i < escaped(s).len() ==> #[trigger] escaped(s)[i] != '<' && escaped(s)[i] != '>',
    decreases s.len(),
{
    reveal_strlit("&amp;");
    reveal_strlit("&lt;");
    reveal_strlit("&gt;");
    if s.len() > 0 {
        law_no_markup(s.drop_last());
        let a = escaped(s.drop_last());
        let b = escaped_char(s.last());
        assert forall|i: int| 0 <= i < b.len() implies #[trigger] b[i] != '<' && b[i] != '>' by {}
        assert forall|i: int| 0 <= i < escaped(s).len() implies #[trigger] escaped(s)[i] != '<'
            && escaped(s)[i] != '>' by {
            if i < a.len() {
                assert(escaped(s)[i] == a[i]);
            } else {
                assert(escaped(s)[i] == b[i - a.len()]);
            }
        }
    }
}

/// A text is written character by character: an ampersand and the angle brackets by their names,
/// every other character as it is.
pub proof fn law_escaped_text(a: Seq<char>, c: char)
    ensures
        escaped(Seq::empty()) == Seq::<char>::empty(),
        escaped(a.push('&')) == escaped(a) + "&amp;"@,
        escaped(a.push('<')) == escaped(a) + "&lt;"@,
        escaped(a.push('>')) == escaped(a) + "&gt;"@,
        c != '&' && c != '<' && c != '>' ==> escaped(a.push(c)) == escaped(a).push(c),
{
    assert(a.push('&').drop_last() =~= a);
    assert(a.push('<').drop_last() =~= a);
    assert(a.push('>').drop_last() =~= a);
    assert(a.push(c).drop_last() =~= a);
    assert(escaped(a) + seq![c] =~= escaped(a).push(c));
}

} // verus!
