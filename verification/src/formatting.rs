//! HTML escaping of values inserted into generated reports.

use vstd::prelude::*;
use crate::text::push_char;

verus! {

/// The text that replaces one character when it is escaped.
pub open spec fn escape_char(c: char) -> Seq<char> {
    if c == '&' {
        seq!['&', 'a', 'm', 'p', ';']
    } else if c == '<' {
        seq!['&', 'l', 't', ';']
    } else if c == '>' {
        seq!['&', 'g', 't', ';']
    } else if c == '"' {
        seq!['&', 'q', 'u', 'o', 't', ';']
    } else if c == '\'' {
        seq!['&', '#', '3', '9', ';']
    } else {
        seq![c]
    }
}

/// Escaped form of a whole text: every character replaced by `escape_char`.
pub open spec fn escape_text(s: Seq<char>) -> Seq<char>
    decreases s.len(),
{
    if s.len() == 0 {
        Seq::empty()
    } else {
        escape_text(s.drop_last()) + escape_char(s.last())
    }
}

/// The characters that HTML reads as markup.
pub open spec fn is_markup_char(c: char) -> bool {
    c == '<' || c == '>' || c == '"' || c == '\''
}

/// Escapes HTML-sensitive characters.
///
/// `&`, `<`, `>`, `"` and `'` are replaced by their character
/// references, every other character is kept.
pub fn escape_html(value: &str) -> (escaped: String)
    ensures
        escaped@ == escape_text(value@),
{
    let mut escaped = String::new();
    let mut chars = value.chars();
    for c in it: chars
        invariant
            escaped@ == escape_text(value@.take(it.index() as int)),
            it.seq() == value@,
    {
        proof {
            reveal_strlit("&amp;");
            reveal_strlit("&lt;");
            reveal_strlit("&gt;");
            reveal_strlit("&quot;");
            reveal_strlit("&#39;");
        }
        if c == '&' {
            escaped.append("&amp;");
        } else if c == '<' {
            escaped.append("&lt;");
        } else if c == '>' {
            escaped.append("&gt;");
        } else if c == '"' {
            escaped.append("&quot;");
        } else if c == '\'' {
            escaped.append("&#39;");
        } else {
            push_char(&mut escaped, c);
        }
        assert(value@.take(it.index() + 1).drop_last() =~= value@.take(it.index() as int));
    }
    assert(value@.take(value@.len() as int) =~= value@);
    escaped
}

/// The text that a character reference at the start of `t` stands for,
/// and its length; `None` where `t` does not start with one of the five
/// references that escaping writes.
pub open spec fn leading_reference(t: Seq<char>) -> Option<(char, int)> {
    if t.len() >= 5 && t.subrange(0, 5) == seq!['&', 'a', 'm', 'p', ';'] {
        Some(('&', 5))
    } else if t.len() >= 4 && t.subrange(0, 4) == seq!['&', 'l', 't', ';'] {
        Some(('<', 4))
    } else if t.len() >= 4 && t.subrange(0, 4) == seq!['&', 'g', 't', ';'] {
        Some(('>', 4))
    } else if t.len() >= 6 && t.subrange(0, 6) == seq!['&', 'q', 'u', 'o', 't', ';'] {
        Some(('"', 6))
    } else if t.len() >= 5 && t.subrange(0, 5) == seq!['&', '#', '3', '9', ';'] {
        Some(('\'', 5))
    } else {
        None
    }
}

/// Reads an escaped text back: each of the five references becomes its
/// character again, every other character stays.
pub open spec fn unescape_text(t: Seq<char>) -> Seq<char>
    decreases t.len(),
{
    if t.len() == 0 {
        Seq::empty()
    } else {
        match leading_reference(t) {
            Some((c, n)) => if 0 < n <= t.len() {
                seq![c] + unescape_text(t.subrange(n, t.len() as int))
            } else {
                Seq::empty()
            },
            None => seq![t[0]] + unescape_text(t.subrange(1, t.len() as int)),
        }
    }
}

/// Escaping a concatenation escapes each part.
pub proof fn lemma_escape_concat(a: Seq<char>, b: Seq<char>)
    ensures
        escape_text(a + b) == escape_text(a) + escape_text(b),
    decreases b.len(),
{
    if b.len() == 0 {
        assert(a + b =~= a);
        assert(escape_text(a) + escape_text(b) =~= escape_text(a));
    } else {
        lemma_escape_concat(a, b.drop_last());
        assert((a + b).drop_last() =~= a + b.drop_last());
        assert((a + b).last() == b.last());
        assert(escape_text(a) + escape_text(b) =~= escape_text(a) + escape_text(b.drop_last())
            + escape_char(b.last()));
    }
}

proof fn lemma_unescape_step(c: char, r: Seq<char>)
    ensures
        unescape_text(escape_char(c) + r) == seq![c] + unescape_text(r),
{
    let t = escape_char(c) + r;
    let n = escape_char(c).len();
    assert(t.len() > 0);
    if c == '&' || c == '<' || c == '>' || c == '"' || c == '\'' {
        assert(t.subrange(0, n as int) =~= escape_char(c));
        assert(t.subrange(n as int, t.len() as int) =~= r);
        assert(t[0] == '&');
        assert(t[1] == escape_char(c)[1]);
        assert(leading_reference(t) == Some((c, n as int)));
    } else {
        assert(t[0] == c);
        assert(t.subrange(1, t.len() as int) =~= r);
        assert(t.len() >= 4 ==> t.subrange(0, 4)[0] == c);
        assert(t.len() >= 5 ==> t.subrange(0, 5)[0] == c);
        assert(t.len() >= 6 ==> t.subrange(0, 6)[0] == c);
        assert(leading_reference(t) is None);
    }
}

/// Escaping loses nothing: reading an escaped text back gives the text.
pub proof fn law_unescape_undoes_escape(s: Seq<char>)
    ensures
        unescape_text(escape_text(s)) == s,
    decreases s.len(),
{
    if s.len() > 0 {
        let rest = s.subrange(1, s.len() as int);
        assert(s =~= seq![s[0]] + rest);
        lemma_escape_concat(seq![s[0]], rest);
        let one = seq![s[0]];
        assert(one.drop_last() =~= Seq::<char>::empty());
        assert(one.last() == s[0]);
        assert(escape_text(one.drop_last()) == Seq::<char>::empty());
        assert(escape_text(one) == escape_text(one.drop_last()) + escape_char(one.last()));
        assert(escape_text(one) =~= escape_char(s[0]));
        lemma_unescape_step(s[0], escape_text(rest));
        law_unescape_undoes_escape(rest);
    }
}

/// An escaped text holds no character that HTML reads as markup.
pub proof fn law_escaped_has_no_markup(s: Seq<char>)
    ensures
        forall|i: int| 0 <= i < escape_text(s).len() ==> !is_markup_char(#[trigger] escape_text(s)[i]),
    decreases s.len(),
{
    if s.len() > 0 {
        law_escaped_has_no_markup(s.drop_last());
        let a = escape_text(s.drop_last());
        let b = escape_char(s.last());
        assert(escape_text(s) == a + b);
        assert forall|i: int| 0 <= i < (a + b).len() implies !is_markup_char(#[trigger] (a + b)[i]) by {
            if i >= a.len() {
                assert((a + b)[i] == b[i - a.len()]);
            } else {
                assert((a + b)[i] == a[i]);
            }
        }
    }
}

/// Whether a text holds none of the characters that escaping replaces.
pub open spec fn needs_no_escaping(s: Seq<char>) -> bool {
    forall|i: int| 0 <= i < s.len() ==> !is_markup_char(#[trigger] s[i]) && s[i] != '&'
}

/// A text without characters to replace is escaped as itself.
pub proof fn law_plain_text_unchanged(s: Seq<char>)
    requires
        needs_no_escaping(s),
    ensures
        escape_text(s) == s,
    decreases s.len(),
{
    if s.len() > 0 {
        assert(!is_markup_char(s[s.len() - 1]) && s[s.len() - 1] != '&');
        assert forall|i: int| 0 <= i < s.drop_last().len() implies !is_markup_char(
            #[trigger] s.drop_last()[i],
        ) && s.drop_last()[i] != '&' by {
            assert(s.drop_last()[i] == s[i]);
        }
        law_plain_text_unchanged(s.drop_last());
        assert(s =~= s.drop_last().push(s.last()));
    }
}

} // verus!
