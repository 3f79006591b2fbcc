//! SQL text.

use vstd::prelude::*;

verus! {

/// A text with every double quote doubled.
pub open spec fn doubled(text: Seq<char>) -> Seq<char>
    decreases text.len(),
{
    if text.len() == 0 {
        Seq::empty()
    } else {
        doubled(text.drop_last()) + (if text.last() == '"' {
            seq!['"', '"']
        } else {
            seq![text.last()]
        })
    }
}

/// An identifier in double quotes.
pub open spec fn quoted(text: Seq<char>) -> Seq<char> {
    seq!['"'] + doubled(text) + seq!['"']
}

/// An identifier in double quotes.
pub fn quote_identifier(text: &str) -> (r: String)
    ensures
        r@ == quoted(text@),
{
    let mut r = "\"".to_owned();
    proof {
        reveal_strlit("\"");
        reveal_strlit("\"\"");
        assert("\""@ =~= seq!['"']);
        assert("\"\""@ =~= seq!['"', '"']);
    }
    let n = text.unicode_len();
    let mut i: usize = 0;
    assert(r@ =~= seq!['"'] + doubled(text@.subrange(0, 0)));
    while i < n
        invariant
            n == text@.len(),
            i <= n,
            "\"\""@ == seq!['"', '"'],
            r@ == seq!['"'] + doubled(text@.subrange(0, i as int)),
        decreases n - i,
    {
        let ghost next = text@.subrange(0, i as int + 1);
        assert(next.drop_last() =~= text@.subrange(0, i as int));
        assert(next.last() == text@[i as int]);
        if text.get_char(i) == '"' {
            r.append("\"\"");
        } else {
            r.append(text.substring_char(i, i + 1));
            assert(text@.subrange(i as int, i as int + 1) =~= seq![text@[i as int]]);
        }
        assert(r@ =~= seq!['"'] + doubled(next));
        i += 1;
    }
    assert(text@.subrange(0, i as int) =~= text@);
    r.append("\"");
    assert(r@ =~= quoted(text@));
    r
}

/// Texts with every quote doubled are equal only where the texts are.
proof fn lemma_doubled_injective(a: Seq<char>, b: Seq<char>)
    requires
        doubled(a) == doubled(b),
    ensures
        a == b,
    decreases a.len() + b.len(),
{
    let da = doubled(a);
    if a.len() == 0 {
        if b.len() > 0 {
            assert(doubled(b).len() > 0);
        }
        assert(a =~= b);
    } else if b.len() == 0 {
        assert(doubled(a).len() > 0);
    } else {
        assert(da[da.len() - 1] == a.last());
        assert(doubled(b)[da.len() - 1] == b.last());
        let cut: int = if a.last() == '"' {
            2
        } else {
            1
        };
        assert(da.subrange(0, da.len() - cut) =~= doubled(a.drop_last()));
        assert(doubled(b).subrange(0, da.len() - cut) =~= doubled(b.drop_last()));
        lemma_doubled_injective(a.drop_last(), b.drop_last());
        assert(a =~= a.drop_last().push(a.last()));
        assert(b =~= b.drop_last().push(b.last()));
    }
}

/// Different identifiers are quoted differently.
pub proof fn quoting_is_injective(a: Seq<char>, b: Seq<char>)
    requires
        quoted(a) == quoted(b),
    ensures
        a == b,
{
    let q = quoted(a);
    assert(q.subrange(1, q.len() - 1) =~= doubled(a));
    assert(q.subrange(1, q.len() - 1) =~= doubled(b));
    lemma_doubled_injective(a, b);
}

/// Texts behind each other, with a separator between them.
pub open spec fn listed(texts: Seq<Seq<char>>, separator: Seq<char>) -> Seq<char>
    decreases texts.len(),
{
    if texts.len() == 0 {
        Seq::empty()
    } else if texts.len() == 1 {
        texts[0]
    } else {
        listed(texts.drop_last(), separator) + separator + texts.last()
    }
}

/// Texts behind each other, with a separator between them.
pub fn list_texts(texts: &[String], separator: &str) -> (r: String)
    ensures
        r@ == listed(crate::codec::views(texts@), separator@),
{
    let ghost all = crate::codec::views(texts@);
    let mut r = String::new();
    let mut i: usize = 0;
    assert(all.subrange(0, 0) =~= Seq::<Seq<char>>::empty());
    while i < texts.len()
        invariant
            i <= texts@.len(),
            all == crate::codec::views(texts@),
            r@ == listed(all.subrange(0, i as int), separator@),
        decreases texts.len() - i,
    {
        let ghost next = all.subrange(0, i as int + 1);
        assert(next.drop_last() =~= all.subrange(0, i as int));
        assert(next.last() == texts@[i as int]@);
        if i > 0 {
            r.append(separator);
        }
        r.append(texts[i].as_str());
        if i == 0 {
            assert(r@ =~= texts@[0]@);
        }
        assert(r@ =~= listed(next, separator@));
        i += 1;
    }
    assert(all.subrange(0, i as int) =~= all);
    r
}

/// An identifier without quotes stands as it is between two of them; a quote in
/// it is doubled.
pub proof fn quoting_doubles_quotes_alone(text: Seq<char>)
    ensures
        (forall|i: int| 0 <= i < text.len() ==> text[i] != '"') ==> quoted(text) == seq!['"'] + text
            + seq!['"'],
        doubled(text.push('"')) == doubled(text) + seq!['"', '"'],
        quoted(text)[0] == '"',
        quoted(text).last() == '"',
{
    assert(text.push('"').drop_last() =~= text);
    if (forall|i: int| 0 <= i < text.len() ==> text[i] != '"') {
        lemma_doubled_plain(text);
    }
}

/// Nothing is doubled where there is no quote.
proof fn lemma_doubled_plain(text: Seq<char>)
    requires
        forall|i: int| 0 <= i < text.len() ==> text[i] != '"',
    ensures
        doubled(text) == text,
    decreases text.len(),
{
    if text.len() > 0 {
        lemma_doubled_plain(text.drop_last());
        assert(text.drop_last() + seq![text.last()] =~= text);
    }
}

/// Whether a text stands at a place of another.
pub open spec fn stands_in(text: Seq<char>, part: Seq<char>, at: int) -> bool {
    0 <= at <= text.len() - part.len() && text.subrange(at, at + part.len()) == part
}

/// Every text stands whole in the list of them, and the list has room for a
/// separator between any two.
pub proof fn lists_hold_every_text(texts: Seq<Seq<char>>, separator: Seq<char>, i: int)
    requires
        0 <= i < texts.len(),
    ensures
        exists|at: int| #[trigger] stands_in(listed(texts, separator), texts[i], at),
        listed(texts, separator).len() >= separator.len() * (texts.len() - 1),
    decreases texts.len(),
{
    let all = listed(texts, separator);
    if texts.len() == 1 {
        assert(all.subrange(0, 0 + texts[i].len() as int) =~= texts[i]);
        assert(stands_in(all, texts[i], 0));
    } else {
        let init = texts.drop_last();
        let before = listed(init, separator);
        let last = texts.last();
        if i < init.len() {
            lists_hold_every_text(init, separator, i);
            let at = choose|at: int| #[trigger] stands_in(before, init[i], at);
            assert(all.subrange(at, at + texts[i].len()) =~= before.subrange(
                at,
                at + init[i].len(),
            ));
            assert(stands_in(all, texts[i], at));
        } else {
            lists_hold_every_text(init, separator, 0);
            let at = (before.len() + separator.len()) as int;
            assert(all.subrange(at, at + last.len()) =~= last);
            assert(stands_in(all, texts[i], at));
        }
        assert(separator.len() * (texts.len() - 1) == separator.len() * (init.len() - 1)
            + separator.len()) by (nonlinear_arith)
            requires
                texts.len() == init.len() + 1,
        ;
    }
}

} // verus!
