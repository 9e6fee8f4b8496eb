use vstd::prelude::*;

verus! {

/// The lines of `s` when it is cut at every newline character. The newlines
/// themselves are dropped; a text without a newline is one line, and the
/// empty text is one empty line.
pub open spec fn split_lines(s: Seq<char>) -> Seq<Seq<char>>
    decreases s.len(),
{
    if s.len() == 0 {
        seq![Seq::<char>::empty()]
    } else {
        let init = split_lines(s.drop_last());
        if s.last() == '\n' {
            init.push(Seq::<char>::empty())
        } else {
            init.update(init.len() - 1, init.last().push(s.last()))
        }
    }
}

/// The text made of every line followed by a newline character.
pub open spec fn join_terminated(lines: Seq<Seq<char>>) -> Seq<char>
    decreases lines.len(),
{
    if lines.len() == 0 {
        Seq::<char>::empty()
    } else {
        join_terminated(lines.drop_last()) + lines.last() + seq!['\n']
    }
}

pub proof fn lemma_split_lines_nonempty(s: Seq<char>)
    ensures
        split_lines(s).len() >= 1,
    decreases s.len(),
{
    if s.len() > 0 {
        lemma_split_lines_nonempty(s.drop_last());
    }
}

/// Joining the lines of a text puts back the text followed by one newline:
/// the newline after the last line is always added, whether or not the text
/// ended with one.
pub proof fn lemma_join_of_split(s: Seq<char>)
    ensures
        join_terminated(split_lines(s)) == s.push('\n'),
    decreases s.len(),
{
    if s.len() == 0 {
        let l = split_lines(s);
        assert(l.drop_last() =~= Seq::<Seq<char>>::empty());
        assert(join_terminated(l.drop_last()) == Seq::<char>::empty());
        assert(join_terminated(l) =~= s.push('\n'));
    } else {
        let p = s.drop_last();
        lemma_join_of_split(p);
        lemma_split_lines_nonempty(p);
        let init = split_lines(p);
        let l = split_lines(s);
        assert(s =~= p.push(s.last()));
        if s.last() == '\n' {
            assert(l.drop_last() =~= init);
            assert(join_terminated(l) =~= s.push('\n'));
        } else {
            assert(l.drop_last() =~= init.drop_last());
            let a = join_terminated(init.drop_last()) + init.last();
            assert(join_terminated(init) =~= a.push('\n'));
            assert(a =~= a.push('\n').drop_last());
            assert(p =~= p.push('\n').drop_last());
            assert(l.last() == init.last().push(s.last()));
            assert(join_terminated(l) =~= s.push('\n'));
        }
    }
}

/// Whether no line holds a newline character.
pub open spec fn no_line_breaks(lines: Seq<Seq<char>>) -> bool {
    forall|j: int, k: int|
        0 <= j < lines.len() && 0 <= k < lines[j].len() ==> #[trigger] lines[j][k] != '\n'
}

/// No line of a cut text holds a newline character.
pub proof fn lemma_split_lines_no_breaks(s: Seq<char>)
    ensures
        no_line_breaks(split_lines(s)),
    decreases s.len(),
{
    if s.len() > 0 {
        lemma_split_lines_no_breaks(s.drop_last());
        lemma_split_lines_nonempty(s.drop_last());
        let init = split_lines(s.drop_last());
        let r = split_lines(s);
        assert forall|j: int, k: int|
            0 <= j < r.len() && 0 <= k < r[j].len() implies #[trigger] r[j][k] != '\n' by {
            if j < init.len() && !(s.last() != '\n' && j == init.len() - 1) {
                assert(r[j] == init[j]);
            } else if s.last() != '\n' {
                assert(r[j] == init.last().push(s.last()));
                if k < init.last().len() {
                    assert(init[init.len() - 1][k] != '\n');
                }
            }
        }
    }
}

proof fn lemma_split_append(a: Seq<char>, l: Seq<char>)
    requires
        forall|k: int| 0 <= k < l.len() ==> #[trigger] l[k] != '\n',
    ensures
        split_lines(a + l) == split_lines(a).update(
            split_lines(a).len() - 1,
            split_lines(a).last() + l,
        ),
    decreases l.len(),
{
    lemma_split_lines_nonempty(a);
    let sa = split_lines(a);
    if l.len() == 0 {
        assert(a + l =~= a);
        assert(sa.last() + l =~= sa.last());
        assert(sa.update(sa.len() - 1, sa.last()) =~= sa);
    } else {
        let lp = l.drop_last();
        lemma_split_append(a, lp);
        assert((a + l).drop_last() =~= a + lp);
        assert((a + l).last() == l.last());
        assert(l.last() != '\n');
        let init = split_lines(a + lp);
        assert(init.last() == sa.last() + lp);
        assert(init.last().push(l.last()) =~= sa.last() + l);
        assert(split_lines(a + l) =~= sa.update(sa.len() - 1, sa.last() + l));
    }
}

/// Cutting the text of lines that hold no newline gives those lines back,
/// followed by one empty line: the newline that ends the last line opens a
/// new, empty one.
pub proof fn lemma_split_of_join(lines: Seq<Seq<char>>)
    requires
        no_line_breaks(lines),
    ensures
        split_lines(join_terminated(lines)) == lines.push(Seq::<char>::empty()),
    decreases lines.len(),
{
    if lines.len() == 0 {
        assert(join_terminated(lines) =~= Seq::<char>::empty());
        assert(lines.push(Seq::<char>::empty()) =~= seq![Seq::<char>::empty()]);
    } else {
        let rest = lines.drop_last();
        let l = lines.last();
        assert(no_line_breaks(rest)) by {
            assert forall|j: int, k: int|
                0 <= j < rest.len() && 0 <= k < rest[j].len() implies #[trigger] rest[j][k]
                != '\n' by {
                assert(rest[j] == lines[j]);
            }
        }
        assert forall|k: int| 0 <= k < l.len() implies #[trigger] l[k] != '\n' by {
            assert(lines[lines.len() - 1][k] != '\n');
        }
        lemma_split_of_join(rest);
        let jr = join_terminated(rest);
        lemma_split_append(jr, l);
        let body = jr + l;
        let full = join_terminated(lines);
        assert(full =~= body.push('\n'));
        assert(full.drop_last() =~= body);
        assert(split_lines(body) =~= rest.push(l));
        assert(rest.push(l) =~= lines);
        assert(split_lines(full) == split_lines(body).push(Seq::<char>::empty()));
    }
}

/// The text of one non-blank table cell, kept as its ordered lines.
#[derive(Clone, Debug, PartialEq, Eq)]
pub struct Substitution {
    pub lines: Vec<String>,
}

impl View for Substitution {
    type V = Seq<Seq<char>>;

    open spec fn view(&self) -> Seq<Seq<char>> {
        self.lines@.map_values(|l: String| l@)
    }
}

impl Substitution {
    /// Cuts `text` into its lines at every newline character.
    pub fn from_text(text: &str) -> (r: Substitution)
        ensures
            r@ == split_lines(text@),
            no_line_breaks(r@),
    {
        proof {
            lemma_split_lines_no_breaks(text@);
        }
        let n = text.unicode_len();
        let mut lines: Vec<String> = Vec::new();
        let mut start: usize = 0;
        let mut i: usize = 0;
        assert(text@.take(0) =~= Seq::<char>::empty());
        assert(text@.subrange(0, 0) =~= Seq::<char>::empty());
        assert(lines@.map_values(|l: String| l@) =~= Seq::<Seq<char>>::empty());
        while i < n
            invariant
                n == text@.len(),
                start <= i <= n,
                split_lines(text@.take(i as int)) == lines@.map_values(|l: String| l@).push(
                    text@.subrange(start as int, i as int),
                ),
            decreases n - i,
        {
            let c = text.get_char(i);
            let ghost before = lines@.map_values(|l: String| l@);
            let ghost t = text@.take(i + 1);
            assert(t.drop_last() =~= text@.take(i as int));
            assert(t.last() == c);
            if c == '\n' {
                let line = text.substring_char(start, i).to_owned();
                lines.push(line);
                assert(line@ == text@.subrange(start as int, i as int));
                assert(split_lines(t) == before.push(line@).push(Seq::<char>::empty()));
                start = i + 1;
                assert(lines@.map_values(|l: String| l@) =~= before.push(line@));
                assert(text@.subrange(start as int, i + 1) =~= Seq::<char>::empty());
                assert(split_lines(t) =~= lines@.map_values(|l: String| l@).push(
                    text@.subrange(start as int, i + 1),
                ));
            } else {
                assert(text@.subrange(start as int, i + 1) =~= text@.subrange(
                    start as int,
                    i as int,
                ).push(c));
                let ghost x = before.push(text@.subrange(start as int, i as int));
                assert(split_lines(t) == x.update(x.len() - 1, x.last().push(c)));
                assert(split_lines(t) =~= before.push(text@.subrange(start as int, i + 1)));
            }
            i = i + 1;
            assert(split_lines(text@.take(i as int)) =~= lines@.map_values(|l: String| l@).push(
                text@.subrange(start as int, i as int),
            ));
        }
        let last = text.substring_char(start, n).to_owned();
        let ghost before = lines@.map_values(|l: String| l@);
        lines.push(last);
        assert(lines@.map_values(|l: String| l@) =~= before.push(last@));
        assert(text@.take(n as int) =~= text@);
        Substitution { lines }
    }

    /// A substitution made of lines that are already cut apart.
    pub fn from_lines(lines: Vec<String>) -> (r: Substitution)
        ensures
            r@ == lines@.map_values(|l: String| l@),
    {
        Substitution { lines }
    }

    /// Every line followed by a newline character, in order.
    pub fn to_text(&self) -> (r: String)
        ensures
            r@ == join_terminated(self@),
    {
        let mut r = String::new();
        let mut i: usize = 0;
        while i < self.lines.len()
            invariant
                i <= self.lines@.len(),
                r@ == join_terminated(self@.take(i as int)),
            decreases self.lines@.len() - i,
        {
            let ghost prev = r@;
            r.append(self.lines[i].as_str());
            r.append("\n");
            assert(self@.take(i + 1).drop_last() =~= self@.take(i as int));
            i = i + 1;
            proof {
                reveal_strlit("\n");
            }
            assert(r@ =~= join_terminated(self@.take(i as int)));
        }
        assert(self@.take(i as int) =~= self@);
        r
    }
}

} // verus!
