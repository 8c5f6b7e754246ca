//! Tag extraction from a note's leading metadata block: the block is bounded
//! by `---` delimiter lines at the start of the file, and its `tags` field
//! holds either one tag or a list of tags. A missing or malformed block
//! yields no tags, never an error. A block that reaches the end of the file
//! without a closing delimiter is accepted; this permissive reading is
//! deliberate and mirrors how sessions treat hand-edited notes.

use vstd::prelude::*;
use vstd::string::StrSliceExecFns;
use vstd::string::StringExecFns;

use crate::text::str_eq;

verus! {

/// Characters that may surround a delimiter line without effect.
pub open spec fn is_blank(c: char) -> bool {
    c == ' ' || c == '\t' || c == '\r'
}

/// How many characters at the front of `l` are blank.
pub open spec fn first_nb(l: Seq<char>) -> int
    decreases l.len(),
{
    if l.len() == 0 {
        0
    } else if !is_blank(l[0]) {
        0
    } else {
        1 + first_nb(l.drop_first())
    }
}

/// One past the last non-blank character of `l`; 0 when all of `l` is blank.
pub open spec fn last_nb(l: Seq<char>) -> int
    decreases l.len(),
{
    if l.len() == 0 {
        0
    } else if !is_blank(l.last()) {
        l.len() as int
    } else {
        last_nb(l.drop_last())
    }
}

/// `l` with blanks removed at both ends.
pub open spec fn trim_spec(l: Seq<char>) -> Seq<char> {
    if last_nb(l) <= first_nb(l) {
        Seq::empty()
    } else {
        l.subrange(first_nb(l), last_nb(l))
    }
}

/// A metadata delimiter line: `---` alone up to surrounding blanks.
pub open spec fn is_delim_line(l: Seq<char>) -> bool {
    trim_spec(l) == "---"@
}

proof fn lemma_first_nb_props(l: Seq<char>)
    ensures
        0 <= first_nb(l) <= l.len(),
        forall|j: int| 0 <= j < first_nb(l) ==> is_blank(#[trigger] l[j]),
        first_nb(l) < l.len() ==> !is_blank(l[first_nb(l)]),
    decreases l.len(),
{
    if l.len() > 0 && is_blank(l[0]) {
        lemma_first_nb_props(l.drop_first());
        assert forall|j: int| 0 <= j < first_nb(l) implies is_blank(#[trigger] l[j]) by {
            if j > 0 {
                assert(l.drop_first()[j - 1] == l[j]);
            }
        }
        if first_nb(l) < l.len() {
            assert(l.drop_first()[first_nb(l) - 1] == l[first_nb(l)]);
        }
    }
}

proof fn lemma_last_nb_props(l: Seq<char>)
    ensures
        0 <= last_nb(l) <= l.len(),
        forall|j: int| last_nb(l) <= j < l.len() ==> is_blank(#[trigger] l[j]),
        last_nb(l) > 0 ==> !is_blank(l[last_nb(l) - 1]),
    decreases l.len(),
{
    if l.len() > 0 && is_blank(l.last()) {
        lemma_last_nb_props(l.drop_last());
        assert forall|j: int| last_nb(l) <= j < l.len() implies is_blank(#[trigger] l[j]) by {
            if j < l.len() - 1 {
                assert(l.drop_last()[j] == l[j]);
            }
        }
        if last_nb(l) > 0 {
            assert(l.drop_last()[last_nb(l) - 1] == l[last_nb(l) - 1]);
        }
    }
}

/// True when `c` may surround a delimiter line.
fn blank_char(c: char) -> (r: bool)
    ensures
        r == is_blank(c),
{
    c == ' ' || c == '\t' || c == '\r'
}

/// Tests whether `l` is a metadata delimiter line.
pub fn delim_line(l: &str) -> (r: bool)
    ensures
        r == is_delim_line(l@),
{
    let n = l.unicode_len();
    proof {
        lemma_first_nb_props(l@);
        lemma_last_nb_props(l@);
    }
    let mut a: usize = 0;
    loop
        invariant
            a <= n,
            n == l@.len(),
            forall|j: int| 0 <= j < a ==> is_blank(#[trigger] l@[j]),
        ensures
            a <= n,
            forall|j: int| 0 <= j < a ==> is_blank(#[trigger] l@[j]),
            a == n || !is_blank(l@[a as int]),
        decreases n - a,
    {
        if a >= n {
            break ;
        }
        if !blank_char(l.get_char(a)) {
            break ;
        }
        a = a + 1;
    }
    proof {
        // both `a` and `first_nb` point at the first non-blank character
        if a < first_nb(l@) {
            assert(is_blank(l@[a as int]));
        }
        if first_nb(l@) < a {
            assert(is_blank(l@[first_nb(l@)]));
        }
        assert(a == first_nb(l@));
    }
    let mut b: usize = n;
    loop
        invariant
            b <= n,
            n == l@.len(),
            forall|j: int| b <= j < n ==> is_blank(#[trigger] l@[j]),
        ensures
            b <= n,
            forall|j: int| b <= j < n ==> is_blank(#[trigger] l@[j]),
            b == 0 || !is_blank(l@[b as int - 1]),
        decreases b,
    {
        if b == 0 {
            break ;
        }
        if !blank_char(l.get_char(b - 1)) {
            break ;
        }
        b = b - 1;
    }
    proof {
        if b < last_nb(l@) {
            assert(is_blank(l@[last_nb(l@) - 1]));
        }
        if last_nb(l@) < b {
            assert(is_blank(l@[b - 1]));
        }
        assert(b == last_nb(l@));
    }
    if b <= a {
        proof {
            reveal_strlit("---");
            assert(trim_spec(l@).len() == 0);
            assert("---"@.len() == 3);
            assert(!is_delim_line(l@));
        }
        false
    } else {
        let t = l.substring_char(a, b);
        proof {
            assert(t@ == trim_spec(l@));
        }
        str_eq(t, "---")
    }
}

/// The index of the first newline of `s`, or its length when it has none.
pub open spec fn first_nl(s: Seq<char>) -> int
    decreases s.len(),
{
    if s.len() == 0 {
        0
    } else if s[0] == '\n' {
        0
    } else {
        1 + first_nl(s.drop_first())
    }
}

proof fn lemma_first_nl_is(s: Seq<char>, k: int)
    requires
        0 <= k <= s.len(),
        forall|j: int| 0 <= j < k ==> s[j] != '\n',
        k < s.len() ==> s[k] == '\n',
    ensures
        first_nl(s) == k,
    decreases s.len(),
{
    if s.len() == 0 {
    } else if s[0] == '\n' {
        assert(k == 0);
    } else {
        assert(k >= 1);
        lemma_first_nl_is(s.drop_first(), k - 1);
    }
}

/// A line with a trailing carriage return loses it.
pub open spec fn strip_cr(l: Seq<char>) -> Seq<char> {
    if l.len() > 0 && l.last() == '\r' {
        l.drop_last()
    } else {
        l
    }
}

/// The lines of `s`: split at newlines, a carriage return before a newline
/// dropped, the final line ending optional.
pub open spec fn lines_of(s: Seq<char>) -> Seq<Seq<char>>
    decreases s.len(),
{
    if s.len() == 0 {
        Seq::empty()
    } else {
        let i = first_nl(s);
        if i < 0 || i >= s.len() {
            seq![s]
        } else {
            seq![strip_cr(s.take(i))] + lines_of(s.skip(i + 1))
        }
    }
}

/// Splits a string into its lines.
pub fn split_lines(s: &str) -> (r: Vec<String>)
    ensures
        r.deep_view() == lines_of(s@),
{
    let n = s.unicode_len();
    let mut out: Vec<String> = Vec::new();
    let mut pos: usize = 0;
    proof {
        assert(s@.skip(0) =~= s@);
        assert(out.deep_view() + lines_of(s@) =~= lines_of(s@));
    }
    loop
        invariant
            pos <= n,
            n == s@.len(),
            lines_of(s@) == out.deep_view() + lines_of(s@.skip(pos as int)),
        decreases n - pos,
    {
        if pos >= n {
            proof {
                assert(s@.skip(pos as int) =~= Seq::<char>::empty());
                assert(out.deep_view() + lines_of(s@.skip(pos as int)) =~= out.deep_view());
            }
            return out;
        }
        let ghost rest = s@.skip(pos as int);
        let mut q = pos;
        loop
            invariant
                pos <= q <= n,
                n == s@.len(),
                forall|j: int| pos <= j < q ==> s@[j] != '\n',
            ensures
                pos <= q <= n,
                forall|j: int| pos <= j < q ==> s@[j] != '\n',
                q == n || s@[q as int] == '\n',
            decreases n - q,
        {
            if q >= n {
                break ;
            }
            if s.get_char(q) == '\n' {
                break ;
            }
            q = q + 1;
        }
        proof {
            assert forall|j: int| 0 <= j < q - pos implies rest[j] != '\n' by {
                assert(rest[j] == s@[pos + j]);
            }
            if (q as int) - (pos as int) < rest.len() {
                assert(rest[q - pos] == s@[q as int]);
            }
            lemma_first_nl_is(rest, q as int - pos as int);
        }
        let ghost old_dv = out.deep_view();
        if q >= n {
            let line = s.substring_char(pos, n);
            let owned = line.to_owned();
            out.push(owned);
            proof {
                assert(rest =~= s@.subrange(pos as int, n as int));
                assert(lines_of(rest) == seq![rest]);
                assert(out.deep_view() =~= old_dv.push(rest));
                assert(out.deep_view() + lines_of(Seq::<char>::empty()) =~= out.deep_view());
                assert(lines_of(s@) == out.deep_view() + lines_of(Seq::<char>::empty()));
            }
            pos = n;
        } else {
            let line = if q > pos && s.get_char(q - 1) == '\r' {
                s.substring_char(pos, q - 1)
            } else {
                s.substring_char(pos, q)
            };
            let owned = line.to_owned();
            out.push(owned);
            proof {
                assert(rest.take(q - pos) =~= s@.subrange(pos as int, q as int));
                assert(rest.skip(q - pos + 1) =~= s@.skip(q + 1));
                if q > pos && s@[q - 1] == '\r' {
                    assert(strip_cr(rest.take(q - pos)) =~= s@.subrange(pos as int, q as int - 1));
                } else {
                    assert(strip_cr(rest.take(q - pos)) =~= s@.subrange(pos as int, q as int));
                }
                assert(lines_of(rest) == seq![strip_cr(rest.take(q - pos))] + lines_of(
                    s@.skip(q + 1),
                ));
                assert(out.deep_view() =~= old_dv.push(strip_cr(rest.take(q - pos))));
                assert(out.deep_view() + lines_of(s@.skip(q + 1)) =~= old_dv + lines_of(rest));
            }
            pos = q + 1;
        }
    }
}

/// The metadata block's text: the given lines, each closed by a newline.
pub open spec fn fm_join(ls: Seq<Seq<char>>) -> Seq<char>
    decreases ls.len(),
{
    if ls.len() == 0 {
        Seq::empty()
    } else {
        fm_join(ls.drop_last()) + ls.last() + seq!['\n']
    }
}

/// The index of the first delimiter line at or after `i`, or the line count
/// when no further delimiter exists.
pub open spec fn close_idx(ls: Seq<Seq<char>>, i: int) -> int
    decreases ls.len() - i,
{
    if i < 0 || i >= ls.len() {
        ls.len() as int
    } else if is_delim_line(ls[i]) {
        i
    } else {
        close_idx(ls, i + 1)
    }
}

/// What a metadata block's `tags` field holds.
pub enum TagsField {
    /// No readable field: block malformed, or the field missing.
    Absent,
    /// A single string: one tag.
    Single(Seq<char>),
    /// A list: each string item is a tag, other items are passed as `None`.
    Listed(Seq<Option<Seq<char>>>),
}

/// The executable counterpart of `TagsField`, handed back by the parser.
pub enum FrontMatterTags {
    Absent,
    Single(String),
    Listed(Vec<Option<String>>),
}

impl View for FrontMatterTags {
    type V = TagsField;

    open spec fn view(&self) -> TagsField {
        match self {
            FrontMatterTags::Absent => TagsField::Absent,
            FrontMatterTags::Single(s) => TagsField::Single(s@),
            FrontMatterTags::Listed(v) => TagsField::Listed(v.deep_view()),
        }
    }
}

/// What the YAML parser finds under `tags` in a metadata block: a function
/// of the block's text alone.
pub uninterp spec fn tags_field_of(s: Seq<char>) -> TagsField;

/// Relies on serde_yaml::from_str, serde_yaml::Value::get and
/// serde_yaml::Value::as_str: parses the metadata block and hands back its
/// `tags` field, each list item mapped to its string content or `None`.
#[verifier::external_body]
fn yaml_tags_field(front_matter: &str) -> (r: FrontMatterTags)
    ensures
        r@ == tags_field_of(front_matter@),
{
    match serde_yaml::from_str::<serde_yaml::Value>(front_matter) {
        Ok(value) => match value.get("tags") {
            Some(serde_yaml::Value::Sequence(items)) => FrontMatterTags::Listed(
                items.iter().map(|item| item.as_str().map(|s| s.to_string())).collect(),
            ),
            Some(serde_yaml::Value::String(tag)) => FrontMatterTags::Single(tag.clone()),
            _ => FrontMatterTags::Absent,
        },
        Err(_) => FrontMatterTags::Absent,
    }
}

/// The tags named by a list-valued `tags` field: its string items, in order.
pub open spec fn listed_tags(items: Seq<Option<Seq<char>>>) -> Seq<Seq<char>>
    decreases items.len(),
{
    if items.len() == 0 {
        Seq::empty()
    } else {
        let rest = listed_tags(items.drop_last());
        match items.last() {
            Some(t) => rest.push(t),
            None => rest,
        }
    }
}

/// The tags a `tags` field yields.
pub open spec fn tags_of_field(tf: TagsField) -> Seq<Seq<char>> {
    match tf {
        TagsField::Absent => Seq::empty(),
        TagsField::Single(t) => seq![t],
        TagsField::Listed(items) => listed_tags(items),
    }
}

/// The tags of a whole note: empty unless the note opens with a delimiter
/// line followed by a non-empty metadata block whose `tags` field is
/// readable.
pub open spec fn tags_of(content: Seq<char>) -> Seq<Seq<char>> {
    let ls = lines_of(content);
    if ls.len() == 0 || !is_delim_line(ls[0]) {
        Seq::empty()
    } else {
        let fm = fm_join(ls.subrange(1, close_idx(ls, 1)));
        if fm.len() == 0 {
            Seq::empty()
        } else {
            tags_of_field(tags_field_of(fm))
        }
    }
}

/// Reads the tags of a note's content.
pub fn extract_tags(content: &str) -> (r: Vec<String>)
    ensures
        r.deep_view() == tags_of(content@),
{
    let ls = split_lines(content);
    let ghost lsv = ls.deep_view();
    proof {
        assert(lsv.len() == ls@.len());
    }
    if ls.len() == 0 {
        let r: Vec<String> = Vec::new();
        proof {
            assert(r.deep_view() =~= tags_of(content@));
        }
        return r;
    }
    let first_is_delim = delim_line(ls[0].as_str());
    proof {
        assert(lsv[0] == ls@[0]@);
    }
    if !first_is_delim {
        let r: Vec<String> = Vec::new();
        proof {
            assert(r.deep_view() =~= tags_of(content@));
        }
        return r;
    }
    let mut fm = String::new();
    let mut i: usize = 1;
    proof {
        assert(fm@ =~= fm_join(lsv.subrange(1, 1)));
    }
    loop
        invariant
            1 <= i <= ls.len(),
            lsv == ls.deep_view(),
            lsv.len() == ls.len(),
            close_idx(lsv, 1) == close_idx(lsv, i as int),
            fm@ == fm_join(lsv.subrange(1, i as int)),
        ensures
            close_idx(lsv, 1) == i,
            fm@ == fm_join(lsv.subrange(1, i as int)),
        decreases ls.len() - i,
    {
        if i >= ls.len() {
            proof {
                assert(close_idx(lsv, i as int) == lsv.len());
            }
            break ;
        }
        let is_close = delim_line(ls[i].as_str());
        proof {
            assert(lsv[i as int] == ls@[i as int]@);
        }
        if is_close {
            proof {
                assert(close_idx(lsv, i as int) == i);
            }
            break ;
        }
        let ghost old_fm = fm@;
        fm.append(ls[i].as_str());
        fm.append("\n");
        proof {
            reveal_strlit("\n");
            assert(close_idx(lsv, i as int) == close_idx(lsv, i + 1));
            assert(lsv.subrange(1, i + 1).drop_last() =~= lsv.subrange(1, i as int));
            assert(lsv.subrange(1, i + 1).last() == lsv[i as int]);
            assert(fm@ =~= fm_join(lsv.subrange(1, i + 1)));
        }
        i = i + 1;
    }
    if fm.as_str().is_empty() {
        let r: Vec<String> = Vec::new();
        proof {
            assert(r.deep_view() =~= tags_of(content@));
        }
        return r;
    }
    let field = yaml_tags_field(fm.as_str());
    let ghost fv = field@;
    proof {
        assert(lsv == lines_of(content@));
        assert(is_delim_line(lsv[0]));
        assert(fm@.len() != 0);
        assert(fv == tags_field_of(fm_join(lsv.subrange(1, close_idx(lsv, 1)))));
        assert(tags_of(content@) == tags_of_field(fv));
    }
    match field {
        FrontMatterTags::Absent => {
            let r: Vec<String> = Vec::new();
            proof {
                assert(r.deep_view() =~= tags_of(content@));
            }
            r
        },
        FrontMatterTags::Single(t) => {
            let mut r: Vec<String> = Vec::new();
            let ghost tv = t@;
            r.push(t);
            proof {
                assert(r.deep_view() =~= seq![tv]);
            }
            r
        },
        FrontMatterTags::Listed(items) => {
            let ghost itemsv = items.deep_view();
            let mut r: Vec<String> = Vec::new();
            let mut k: usize = 0;
            proof {
                assert(r.deep_view() =~= listed_tags(itemsv.subrange(0, 0)));
            }
            while k < items.len()
                invariant
                    k <= items.len(),
                    itemsv == items.deep_view(),
                    itemsv.len() == items.len(),
                    r.deep_view() == listed_tags(itemsv.subrange(0, k as int)),
                decreases items.len() - k,
            {
                let ghost old_dv = r.deep_view();
                match &items[k] {
                    Some(t) => {
                        r.push(t.clone());
                        proof {
                            assert(r.deep_view() =~= old_dv.push(t@));
                        }
                    },
                    None => {},
                }
                proof {
                    assert(itemsv.subrange(0, k + 1).drop_last() =~= itemsv.subrange(0, k as int));
                    assert(itemsv.subrange(0, k + 1).last() == itemsv[k as int]);
                }
                k = k + 1;
            }
            proof {
                assert(itemsv.subrange(0, itemsv.len() as int) =~= itemsv);
            }
            r
        },
    }
}

} // verus!
