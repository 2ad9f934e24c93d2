//! The ledger: the text file that lists the installed packages, one name per
//! line, in the order of installation.
use vstd::prelude::*;
use vstd::string::StrSliceExecFns;
use vstd::string::StringExecFns;
use crate::text::chars_of;

verus! {

broadcast use vstd::string::group_string_axioms;

/// A line holds no newline character.
pub open spec fn is_line(l: Seq<char>) -> bool {
    forall|k: int| 0 <= k < l.len() ==> l[k] != '\n'
}

/// Every entry of `ls` is a line.
pub open spec fn all_lines(ls: Seq<Seq<char>>) -> bool {
    forall|i: int| 0 <= i < ls.len() ==> is_line(#[trigger] ls[i])
}

/// Splits `s` at each newline, where `cur` is the part of the current line
/// read so far. A final line need not end with a newline; an empty text after
/// the last newline gives no line.
pub open spec fn split_lines(s: Seq<char>, cur: Seq<char>) -> Seq<Seq<char>>
    decreases s.len(),
{
    if s.len() == 0 {
        if cur.len() == 0 {
            seq![]
        } else {
            seq![cur]
        }
    } else if s[0] == '\n' {
        seq![cur] + split_lines(s.drop_first(), seq![])
    } else {
        split_lines(s.drop_first(), cur.push(s[0]))
    }
}

/// The entries of a ledger text.
pub open spec fn lines_of(text: Seq<char>) -> Seq<Seq<char>> {
    split_lines(text, seq![])
}

/// The ledger text that lists `ls`: each entry followed by a newline.
pub open spec fn render(ls: Seq<Seq<char>>) -> Seq<char>
    decreases ls.len(),
{
    if ls.len() == 0 {
        seq![]
    } else {
        render(ls.drop_last()) + ls.last() + seq!['\n']
    }
}

/// `ls` without the entries equal to `name`, the others in their order.
pub open spec fn without(ls: Seq<Seq<char>>, name: Seq<char>) -> Seq<Seq<char>>
    decreases ls.len(),
{
    if ls.len() == 0 {
        seq![]
    } else if ls.last() == name {
        without(ls.drop_last(), name)
    } else {
        without(ls.drop_last(), name).push(ls.last())
    }
}

/// The text `text` with `name` appended as a line of its own: a newline is
/// put first where the text is not empty and does not end with one.
pub open spec fn appended(text: Seq<char>, name: Seq<char>) -> Seq<char> {
    let head = if text.len() > 0 && text.last() != '\n' {
        text.push('\n')
    } else {
        text
    };
    head + name + seq!['\n']
}

proof fn lemma_split_is_lines(s: Seq<char>, cur: Seq<char>)
    requires
        is_line(cur),
    ensures
        all_lines(split_lines(s, cur)),
    decreases s.len(),
{
    if s.len() == 0 {
    } else if s[0] == '\n' {
        lemma_split_is_lines(s.drop_first(), seq![]);
        let rest = split_lines(s.drop_first(), seq![]);
        assert forall|i: int| 0 <= i < (seq![cur] + rest).len() implies is_line(
            #[trigger] (seq![cur] + rest)[i],
        ) by {
            if i > 0 {
                assert((seq![cur] + rest)[i] == rest[i - 1]);
            }
        }
    } else {
        lemma_split_is_lines(s.drop_first(), cur.push(s[0]));
    }
}

/// The entries of any ledger text are lines.
pub proof fn lemma_lines_of_are_lines(text: Seq<char>)
    ensures
        all_lines(lines_of(text)),
{
    lemma_split_is_lines(text, seq![]);
}

proof fn lemma_split_concat(a: Seq<char>, b: Seq<char>, cur: Seq<char>)
    requires
        a.len() > 0,
        a.last() == '\n',
    ensures
        split_lines(a + b, cur) == split_lines(a, cur) + split_lines(b, seq![]),
    decreases a.len(),
{
    assert((a + b).drop_first() =~= a.drop_first() + b);
    if a.len() == 1 {
        assert(a.drop_first() + b =~= b);
        assert(split_lines(a.drop_first(), seq![]) == Seq::<Seq<char>>::empty());
        assert(seq![cur] + split_lines(b, seq![]) =~= seq![cur] + Seq::<Seq<char>>::empty()
            + split_lines(b, seq![]));
    } else if a[0] == '\n' {
        lemma_split_concat(a.drop_first(), b, seq![]);
        assert(seq![cur] + (split_lines(a.drop_first(), seq![]) + split_lines(b, seq![]))
            =~= seq![cur] + split_lines(a.drop_first(), seq![]) + split_lines(b, seq![]));
    } else {
        lemma_split_concat(a.drop_first(), b, cur.push(a[0]));
    }
}

proof fn lemma_split_single(l: Seq<char>, cur: Seq<char>)
    requires
        is_line(l),
    ensures
        split_lines(l + seq!['\n'], cur) == seq![cur + l],
    decreases l.len(),
{
    let s = l + seq!['\n'];
    if l.len() == 0 {
        assert(s =~= seq!['\n']);
        assert(s.drop_first() =~= Seq::<char>::empty());
        assert(split_lines(s.drop_first(), seq![]) =~= Seq::<Seq<char>>::empty());
        assert(cur + l =~= cur);
        assert(seq![cur] + Seq::<Seq<char>>::empty() =~= seq![cur]);
    } else {
        assert(s[0] == l[0]);
        assert(s.drop_first() =~= l.drop_first() + seq!['\n']);
        lemma_split_single(l.drop_first(), cur.push(l[0]));
        assert(cur.push(l[0]) + l.drop_first() =~= cur + l);
    }
}

proof fn lemma_split_trailing(a: Seq<char>, cur: Seq<char>)
    requires
        a.len() > 0 || cur.len() > 0,
        a.len() == 0 || a.last() != '\n',
    ensures
        split_lines(a.push('\n'), cur) == split_lines(a, cur),
    decreases a.len(),
{
    let s = a.push('\n');
    if a.len() == 0 {
        assert(s.drop_first() =~= Seq::<char>::empty());
        assert(split_lines(s.drop_first(), seq![]) =~= Seq::<Seq<char>>::empty());
        assert(seq![cur] + Seq::<Seq<char>>::empty() =~= seq![cur]);
    } else {
        assert(s[0] == a[0]);
        assert(s.drop_first() =~= a.drop_first().push('\n'));
        if a[0] == '\n' {
            lemma_split_trailing(a.drop_first(), seq![]);
        } else {
            lemma_split_trailing(a.drop_first(), cur.push(a[0]));
        }
    }
}

/// Reading back a rendered list of lines gives the list.
pub proof fn lemma_lines_of_render(ls: Seq<Seq<char>>)
    requires
        all_lines(ls),
    ensures
        lines_of(render(ls)) == ls,
    decreases ls.len(),
{
    if ls.len() > 0 {
        let init = ls.drop_last();
        assert(all_lines(init)) by {
            assert forall|i: int| 0 <= i < init.len() implies is_line(#[trigger] init[i]) by {
                assert(init[i] == ls[i]);
            }
        }
        lemma_lines_of_render(init);
        assert(is_line(ls[ls.len() - 1]));
        let tail = ls.last() + seq!['\n'];
        assert(render(ls) =~= render(init) + tail);
        lemma_split_single(ls.last(), seq![]);
        assert(Seq::<char>::empty() + ls.last() =~= ls.last());
        if render(init).len() == 0 {
            assert(render(init) + tail =~= tail);
            assert(init =~= Seq::<Seq<char>>::empty());
        } else {
            assert(render(init).last() == '\n');
            lemma_split_concat(render(init), tail, seq![]);
        }
        assert(init.push(ls.last()) =~= ls);
    }
}

/// Appending a name gives the old entries followed by that name.
pub proof fn lemma_lines_of_appended(text: Seq<char>, name: Seq<char>)
    requires
        is_line(name),
    ensures
        lines_of(appended(text, name)) == lines_of(text).push(name),
{
    let head = if text.len() > 0 && text.last() != '\n' {
        text.push('\n')
    } else {
        text
    };
    let tail = name + seq!['\n'];
    assert(appended(text, name) =~= head + tail);
    lemma_split_single(name, seq![]);
    assert(Seq::<char>::empty() + name =~= name);
    if head.len() == 0 {
        assert(head + tail =~= tail);
        assert(lines_of(text) =~= Seq::<Seq<char>>::empty());
    } else {
        lemma_split_concat(head, tail, seq![]);
        if text.len() > 0 && text.last() != '\n' {
            lemma_split_trailing(text, seq![]);
        }
    }
}

/// Dropping entries keeps the rest lines and leaves no entry equal to `name`.
pub proof fn lemma_without(ls: Seq<Seq<char>>, name: Seq<char>)
    requires
        all_lines(ls),
    ensures
        all_lines(without(ls, name)),
        !without(ls, name).contains(name),
        forall|l: Seq<char>| l != name ==> (ls.contains(l) <==> without(ls, name).contains(l)),
    decreases ls.len(),
{
    if ls.len() > 0 {
        let init = ls.drop_last();
        assert forall|i: int| 0 <= i < init.len() implies is_line(#[trigger] init[i]) by {
            assert(init[i] == ls[i]);
        }
        lemma_without(init, name);
        let w = without(init, name);
        assert(is_line(ls[ls.len() - 1]));
        assert forall|l: Seq<char>| ls.contains(l) <==> (init.contains(l) || l == ls.last()) by {
            if ls.contains(l) {
                let i = choose|i: int| 0 <= i < ls.len() && ls[i] == l;
                if i < ls.len() - 1 {
                    assert(init[i] == l);
                }
            }
            if init.contains(l) {
                let i = choose|i: int| 0 <= i < init.len() && init[i] == l;
                assert(ls[i] == l);
            }
            if l == ls.last() {
                assert(ls[ls.len() - 1] == l);
            }
        }
        if ls.last() != name {
            let w2 = w.push(ls.last());
            assert forall|i: int| 0 <= i < w2.len() implies is_line(#[trigger] w2[i]) by {
                if i < w.len() {
                    assert(w2[i] == w[i]);
                }
            }
            assert forall|l: Seq<char>| w2.contains(l) <==> (w.contains(l) || l == ls.last()) by {
                if w2.contains(l) {
                    let i = choose|i: int| 0 <= i < w2.len() && w2[i] == l;
                    if i < w.len() {
                        assert(w[i] == l);
                    }
                }
                if w.contains(l) {
                    let i = choose|i: int| 0 <= i < w.len() && w[i] == l;
                    assert(w2[i] == l);
                }
                if l == ls.last() {
                    assert(w2[w.len() as int] == l);
                }
            }
        }
    }
}

/// The views of a list of strings.
pub open spec fn views(v: Seq<String>) -> Seq<Seq<char>> {
    v.map_values(|l: String| l@)
}

/// Splits a ledger text into its entries.
pub fn parse_lines(text: &str) -> (r: Vec<String>)
    ensures
        views(r@) == lines_of(text@),
{
    let v = chars_of(text);
    let n = v.len();
    let mut out: Vec<String> = Vec::new();
    let mut start: usize = 0;
    let mut i: usize = 0;
    assert(text@.subrange(0, n as int) =~= text@);
    assert(text@.subrange(0, 0) =~= Seq::<char>::empty());
    assert(views(out@) =~= Seq::<Seq<char>>::empty());
    assert(views(out@) + lines_of(text@) =~= lines_of(text@));
    while i < n
        invariant
            v@ == text@,
            n == v.len(),
            start <= i <= n,
            lines_of(text@) == views(out@) + split_lines(
                text@.subrange(i as int, n as int),
                text@.subrange(start as int, i as int),
            ),
        decreases n - i,
    {
        let ghost rest = text@.subrange(i as int, n as int);
        let ghost cur = text@.subrange(start as int, i as int);
        assert(rest[0] == v@[i as int]);
        assert(rest.drop_first() =~= text@.subrange(i + 1, n as int));
        if v[i] == '\n' {
            let line = text.substring_char(start, i).to_owned();
            proof {
                assert(views(out@.push(line)) =~= views(out@).push(cur));
                assert(views(out@) + (seq![cur] + split_lines(rest.drop_first(), seq![]))
                    =~= views(out@).push(cur) + split_lines(rest.drop_first(), seq![]));
                assert(text@.subrange(i + 1, i + 1) =~= Seq::<char>::empty());
            }
            out.push(line);
            start = i + 1;
        } else {
            assert(cur.push(v@[i as int]) =~= text@.subrange(start as int, i + 1));
        }
        i = i + 1;
    }
    let ghost cur = text@.subrange(start as int, n as int);
    assert(text@.subrange(n as int, n as int) =~= Seq::<char>::empty());
    if start < n {
        let line = text.substring_char(start, n).to_owned();
        assert(views(out@.push(line)) =~= views(out@) + seq![cur]);
        out.push(line);
    } else {
        assert(cur =~= Seq::<char>::empty());
        assert(views(out@) + Seq::<Seq<char>>::empty() =~= views(out@));
    }
    out
}

/// Whether `name` is an entry of the ledger text: an exact line of it. An
/// absent ledger reads as the empty text, which lists nothing.
pub fn is_installed(ledger: &str, name: &str) -> (r: bool)
    ensures
        r == lines_of(ledger@).contains(name@),
{
    let lines = parse_lines(ledger);
    let wanted = name.to_owned();
    let mut j: usize = 0;
    while j < lines.len()
        invariant
            views(lines@) == lines_of(ledger@),
            wanted@ == name@,
            j <= lines.len(),
            forall|k: int| 0 <= k < j ==> lines@[k]@ != name@,
        decreases lines.len() - j,
    {
        if lines[j] == wanted {
            assert(lines_of(ledger@)[j as int] == name@);
            return true;
        }
        j = j + 1;
    }
    assert forall|k: int| 0 <= k < lines_of(ledger@).len() implies lines_of(ledger@)[k] != name@ by {
        assert(lines_of(ledger@)[k] == lines@[k]@);
    }
    false
}

/// The ledger text after recording `name` as installed: `name` appended as a
/// new line. No check is made that it is not there already.
pub fn log_install(ledger: &str, name: &str) -> (r: String)
    ensures
        r@ == appended(ledger@, name@),
        is_line(name@) ==> lines_of(r@) == lines_of(ledger@).push(name@),
{
    let v = chars_of(ledger);
    let mut r = ledger.to_owned();
    proof {
        reveal_strlit("\n");
    }
    let ghost head = if ledger@.len() > 0 && ledger@.last() != '\n' {
        ledger@.push('\n')
    } else {
        ledger@
    };
    if v.len() > 0 && v[v.len() - 1] != '\n' {
        r.append("\n");
    }
    assert(r@ =~= head);
    r.append(name);
    r.append("\n");
    assert(r@ =~= appended(ledger@, name@));
    proof {
        if is_line(name@) {
            lemma_lines_of_appended(ledger@, name@);
        }
    }
    r
}

/// The ledger text after recording `name` as removed: every entry equal to
/// `name` dropped, the others kept in their order, one per line.
pub fn remove_log(ledger: &str, name: &str) -> (r: String)
    ensures
        r@ == render(without(lines_of(ledger@), name@)),
        lines_of(r@) == without(lines_of(ledger@), name@),
{
    let lines = parse_lines(ledger);
    let ghost ls = lines_of(ledger@);
    let wanted = name.to_owned();
    let mut r = String::new();
    proof {
        reveal_strlit("\n");
    }
    let mut j: usize = 0;
    while j < lines.len()
        invariant
            views(lines@) == ls,
            wanted@ == name@,
            j <= lines.len(),
            r@ == render(without(ls.subrange(0, j as int), name@)),
        decreases lines.len() - j,
    {
        let ghost pre = ls.subrange(0, j as int);
        let ghost next = ls.subrange(0, j + 1);
        assert(next.drop_last() =~= pre);
        assert(next.last() == lines@[j as int]@);
        let same = lines[j] == wanted;
        assert(same == (next.last() == name@));
        assert(next.len() > 0);
        if same {
            assert(without(next, name@) == without(pre, name@));
        } else {
            let ghost r0 = r@;
            proof {
                reveal_strlit("\n");
            }
            r.append(lines[j].as_str());
            r.append("\n");
            let ghost w = without(pre, name@);
            assert(r@ =~= r0 + next.last() + seq!['\n']);
            assert(w.push(next.last()).drop_last() =~= w);
            assert(render(w.push(next.last())) == render(w) + next.last() + seq!['\n']);
            assert(without(next, name@) == w.push(next.last()));
            assert(r@ =~= render(w.push(next.last())));
        }
        j = j + 1;
    }
    assert(ls.subrange(0, lines.len() as int) =~= ls);
    proof {
        lemma_lines_of_are_lines(ledger@);
        lemma_without(ls, name@);
        lemma_lines_of_render(without(ls, name@));
    }
    r
}

} // verus!
