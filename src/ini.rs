//! Line-oriented `key = value` files with `[section]` headers and `#`/`;` comments.
use vstd::prelude::*;
use crate::text::{
    find_char, first_at, lemma_first_at_unique, slice_string, split_bounds, split_char, to_chars,
    trim, trim_bounds,
};

verus! {

/// A `key = value` line and the section it stands in.
pub struct IniEntry {
    /// The text between the brackets of the last header, as written.
    pub section: String,
    pub key: String,
    pub value: String,
}

pub open spec fn entry_view(e: IniEntry) -> (Seq<char>, Seq<char>, Seq<char>) {
    (e.section@, e.key@, e.value@)
}

/// One line, read in the state (current section, entries so far).
pub open spec fn ini_line(
    st: (Seq<char>, Seq<(Seq<char>, Seq<char>, Seq<char>)>),
    line: Seq<char>,
) -> (Seq<char>, Seq<(Seq<char>, Seq<char>, Seq<char>)>) {
    let l = trim(line);
    if l.len() == 0 || l[0] == '#' || l[0] == ';' {
        st
    } else if l[0] == '[' && l.last() == ']' {
        (l.subrange(1, l.len() - 1), st.1)
    } else if exists|i: int| first_at(l, '=', i) {
        let i = choose|i: int| first_at(l, '=', i);
        (st.0, st.1.push((st.0, trim(l.subrange(0, i)), trim(l.subrange(i + 1, l.len() as int)))))
    } else {
        st
    }
}

pub open spec fn ini_lines(ls: Seq<Seq<char>>) -> (Seq<char>, Seq<(Seq<char>, Seq<char>, Seq<char>)>)
    decreases ls.len(),
{
    if ls.len() == 0 {
        (Seq::empty(), Seq::empty())
    } else {
        ini_line(ini_lines(ls.drop_last()), ls.last())
    }
}

/// The entries of a text, in order: (section, trimmed key, trimmed value).
pub open spec fn ini_entries(text: Seq<char>) -> Seq<(Seq<char>, Seq<char>, Seq<char>)> {
    ini_lines(split_char(text, '\n')).1
}

/// Reads the `key = value` entries of `text`, each with its section.
pub fn read_ini(text: &str) -> (r: Vec<IniEntry>)
    ensures
        r@.map_values(|e: IniEntry| entry_view(e)) == ini_entries(text@),
{
    let chars = to_chars(text);
    let n = chars.len();
    assert(chars@.subrange(0, n as int) == text@);
    let ghost ls = split_char(text@, '\n');
    let lines = split_bounds(&chars, 0, n, '\n');
    let mut out: Vec<IniEntry> = Vec::new();
    let mut sa: usize = 0;
    let mut sb: usize = 0;
    let mut k: usize = 0;
    while k < lines.len()
        invariant
            n == chars@.len(),
            ls == split_char(text@, '\n'),
            lines@.len() == ls.len(),
            forall|j: int|
                0 <= j < lines@.len() ==> (#[trigger] lines@[j]).0 <= lines@[j].1 <= n
                    && chars@.subrange(lines@[j].0 as int, lines@[j].1 as int) == ls[j],
            k <= lines@.len(),
            sa <= sb <= n,
            ini_lines(ls.take(k as int)) == (
                chars@.subrange(sa as int, sb as int),
                out@.map_values(|e: IniEntry| entry_view(e)),
            ),
        decreases lines@.len() - k,
    {
        let (a, b) = lines[k];
        assert(lines@[k as int] == (a, b));
        assert(ls.take(k + 1).drop_last() == ls.take(k as int));
        assert(ls.take(k + 1).last() == ls[k as int]);
        let ghost l = trim(ls[k as int]);
        let (ta, tb) = trim_bounds(&chars, a, b);
        if ta == tb || chars[ta] == '#' || chars[ta] == ';' {
        } else if chars[ta] == '[' && chars[tb - 1] == ']' {
            assert(l.subrange(1, l.len() - 1) == chars@.subrange(ta + 1, tb - 1));
            sa = ta + 1;
            sb = tb - 1;
        } else {
            match find_char(&chars, ta, tb, '=') {
                None => {
                    assert forall|i: int| !first_at(l, '=', i) by {
                        if 0 <= i < l.len() {
                            assert(l[i] == chars@[ta + i]);
                        }
                    }
                },
                Some(e) => {
                    let ghost i = e - ta;
                    assert(first_at(l, '=', i));
                    assert forall|j: int| first_at(l, '=', j) implies j == i by {
                        lemma_first_at_unique(l, '=', i, j);
                    }
                    assert(l.subrange(0, i) == chars@.subrange(ta as int, e as int));
                    assert(l.subrange(i + 1, l.len() as int) == chars@.subrange(e + 1, tb as int));
                    let (ka, kb) = trim_bounds(&chars, ta, e);
                    let (va, vb) = trim_bounds(&chars, e + 1, tb);
                    let entry = IniEntry {
                        section: slice_string(&chars, sa, sb),
                        key: slice_string(&chars, ka, kb),
                        value: slice_string(&chars, va, vb),
                    };
                    let ghost before = out@;
                    out.push(entry);
                    assert(out@.drop_last() == before);
                    assert(out@.map_values(|e: IniEntry| entry_view(e)) =~= before.map_values(
                        |e: IniEntry| entry_view(e),
                    ).push(entry_view(entry)));
                },
            }
        }
        k += 1;
    }
    assert(ls.take(k as int) == ls);
    out
}

} // verus!
