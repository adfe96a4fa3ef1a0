//! Fragments of styled text, lines of fragments, and blocks of lines.

use crate::columns::{checked_str_columns, str_columns, text_columns};
use crate::style::Style;
use std::borrow::Cow;
use vstd::prelude::*;

verus! {

/// What a fragment's text can be made from: a borrowed `&str`, an owned
/// `String`, or a `Cow` that already holds either.
pub trait IntoContent<'a> {
    /// The characters the value holds.
    spec fn content_view(&self) -> Seq<char>;

    fn into_content(self) -> (r: Cow<'a, str>)
        ensures
            r@ == self.content_view(),
    ;
}

impl<'a> IntoContent<'a> for &'a str {
    open spec fn content_view(&self) -> Seq<char> {
        self@
    }

    fn into_content(self) -> (r: Cow<'a, str>) {
        Cow::Borrowed(self)
    }
}

impl<'a> IntoContent<'a> for String {
    open spec fn content_view(&self) -> Seq<char> {
        self@
    }

    fn into_content(self) -> (r: Cow<'a, str>) {
        Cow::Owned(self)
    }
}

impl<'a> IntoContent<'a> for Cow<'a, str> {
    open spec fn content_view(&self) -> Seq<char> {
        self@
    }

    fn into_content(self) -> (r: Cow<'a, str>) {
        self
    }
}

/// A piece of text, borrowed or owned, either without a style (`Raw`) or
/// with one (`Styled`).
#[derive(Debug, PartialEq)]
pub enum Fragment<'a> {
    Raw(Cow<'a, str>),
    Styled(Cow<'a, str>, Style),
}

impl<'a> Fragment<'a> {
    /// The characters of the fragment.
    pub open spec fn spec_content(&self) -> Seq<char> {
        match self {
            Fragment::Raw(s) => s@,
            Fragment::Styled(s, _) => s@,
        }
    }

    /// The style of the fragment; the neutral style for a raw one.
    pub open spec fn spec_style(&self) -> Style {
        match self {
            Fragment::Raw(_) => Style::neutral(),
            Fragment::Styled(_, st) => *st,
        }
    }

    /// The columns the fragment occupies on a terminal.
    pub open spec fn spec_width(&self) -> nat {
        text_columns(self.spec_content())
    }

    /// A fragment holding `s` with the style `style`.
    pub fn styled<S: IntoContent<'a>>(s: S, style: Style) -> (r: Fragment<'a>)
        ensures
            r is Styled,
            r.spec_content() == s.content_view(),
            r.spec_style() == style,
    {
        Fragment::Styled(s.into_content(), style)
    }

    /// The text of the fragment, without its style.
    pub fn as_str(&self) -> (r: &str)
        ensures
            r@ == self.spec_content(),
    {
        let s = match self {
            Fragment::Raw(s) => s,
            Fragment::Styled(s, _) => s,
        };
        match s {
            Cow::Borrowed(b) => b,
            Cow::Owned(o) => o.as_str(),
        }
    }

    /// The columns the fragment occupies: the sum of the widths of its
    /// characters, wide characters counting 2 and combining marks and
    /// control characters 0.
    pub fn width(&self) -> (r: usize)
        requires
            self.spec_width() <= usize::MAX,
        ensures
            r == self.spec_width(),
    {
        str_columns(self.as_str())
    }

    /// The columns the fragment occupies, or `None` where the count does
    /// not fit in `usize`.
    pub fn checked_width(&self) -> (r: Option<usize>)
        ensures
            r == (if self.spec_width() <= usize::MAX {
                Some(self.spec_width() as usize)
            } else {
                None::<usize>
            }),
    {
        checked_str_columns(self.as_str())
    }

    /// The style of the fragment; the neutral style for a raw one.
    pub fn style(&self) -> (r: Style)
        ensures
            r == self.spec_style(),
    {
        match self {
            Fragment::Raw(_) => Style::default(),
            Fragment::Styled(_, st) => *st,
        }
    }
}

/// A borrowed copy stays borrowed; an owned one is copied.
fn clone_content<'a>(c: &Cow<'a, str>) -> (r: Cow<'a, str>)
    ensures
        r == *c,
{
    match c {
        Cow::Borrowed(b) => Cow::Borrowed(*b),
        Cow::Owned(o) => Cow::Owned(o.clone()),
    }
}

impl<'a> Clone for Fragment<'a> {
    fn clone(&self) -> (r: Fragment<'a>)
        ensures
            r == *self,
    {
        match self {
            Fragment::Raw(s) => Fragment::Raw(clone_content(s)),
            Fragment::Styled(s, st) => Fragment::Styled(clone_content(s), *st),
        }
    }
}

impl<'a> From<String> for Fragment<'a> {
    fn from(s: String) -> (r: Fragment<'a>) {
        Fragment::Raw(Cow::Owned(s))
    }
}

impl<'a> vstd::std_specs::convert::FromSpecImpl<String> for Fragment<'a> {
    open spec fn obeys_from_spec() -> bool {
        true
    }

    open spec fn from_spec(s: String) -> Fragment<'a> {
        Fragment::Raw(Cow::Owned(s))
    }
}

impl<'a> From<&'a str> for Fragment<'a> {
    fn from(s: &'a str) -> (r: Fragment<'a>) {
        Fragment::Raw(Cow::Borrowed(s))
    }
}

impl<'a> vstd::std_specs::convert::FromSpecImpl<&'a str> for Fragment<'a> {
    open spec fn obeys_from_spec() -> bool {
        true
    }

    open spec fn from_spec(s: &'a str) -> Fragment<'a> {
        Fragment::Raw(Cow::Borrowed(s))
    }
}

impl<'a> AsRef<str> for Fragment<'a> {
    fn as_ref(&self) -> (r: &str)
        ensures
            r@ == self.spec_content(),
    {
        self.as_str()
    }
}


/// Columns of a sequence of fragments: the sum of their widths.
pub open spec fn fragments_width<'a>(fs: Seq<Fragment<'a>>) -> nat
    decreases fs.len(),
{
    if fs.len() == 0 {
        0
    } else {
        fragments_width(fs.drop_last()) + fs.last().spec_width()
    }
}

/// The characters of a sequence of fragments, in order, without styles.
pub open spec fn plain_text<'a>(fs: Seq<Fragment<'a>>) -> Seq<char>
    decreases fs.len(),
{
    if fs.len() == 0 {
        Seq::empty()
    } else {
        plain_text(fs.drop_last()) + fs.last().spec_content()
    }
}

/// Turning a line of one fragment back into plain text gives exactly that
/// fragment's text.
pub proof fn lemma_plain_text_single<'a>(f: Fragment<'a>)
    ensures
        plain_text(seq![f]) == f.spec_content(),
{
    let e = Seq::<Fragment<'a>>::empty();
    assert(seq![f].drop_last() =~= e);
    assert(plain_text(e) == Seq::<char>::empty());
    assert(Seq::<char>::empty() + f.spec_content() =~= f.spec_content());
}

proof fn lemma_fragments_width_prefix<'a>(fs: Seq<Fragment<'a>>, i: int)
    requires
        0 <= i <= fs.len(),
    ensures
        fragments_width(fs.take(i)) <= fragments_width(fs),
    decreases fs.len() - i,
{
    if i < fs.len() {
        lemma_fragments_width_prefix(fs, i + 1);
        assert(fs.take(i + 1).drop_last() =~= fs.take(i));
    } else {
        assert(fs.take(i) =~= fs);
    }
}

/// One line of terminal text: fragments rendered left to right.
#[derive(Debug, PartialEq)]
pub struct Line<'a> {
    fragments: Vec<Fragment<'a>>,
}

impl<'a> View for Line<'a> {
    type V = Seq<Fragment<'a>>;

    closed spec fn view(&self) -> Seq<Fragment<'a>> {
        self.fragments@
    }
}

impl<'a> Line<'a> {
    /// The columns the line occupies: the sum of its fragments' widths.
    pub open spec fn spec_width(&self) -> nat {
        fragments_width(self@)
    }

    /// The characters of the line, without styles.
    pub open spec fn spec_plain_text(&self) -> Seq<char> {
        plain_text(self@)
    }

    /// A line of the given fragments, in their order.
    pub fn with_fragments(fragments: Vec<Fragment<'a>>) -> (r: Line<'a>)
        ensures
            r@ == fragments@,
    {
        Line { fragments }
    }

    /// The columns the line occupies: the sum of its fragments' widths.
    pub fn width(&self) -> (r: usize)
        requires
            self.spec_width() <= usize::MAX,
        ensures
            r == self.spec_width(),
            r == fragments_width(self@),
    {
        let mut total: usize = 0;
        let mut i: usize = 0;
        while i < self.fragments.len()
            invariant
                i <= self@.len(),
                total == fragments_width(self@.take(i as int)),
                self.spec_width() <= usize::MAX,
            decreases self@.len() - i,
        {
            proof {
                assert(self@.take(i + 1).drop_last() =~= self@.take(i as int));
                lemma_fragments_width_prefix(self@, i + 1);
            }
            total = total + self.fragments[i].width();
            i = i + 1;
        }
        proof {
            assert(self@.take(i as int) =~= self@);
        }
        total
    }

    /// The columns the line occupies, or `None` where the count does not
    /// fit in `usize`.
    pub fn checked_width(&self) -> (r: Option<usize>)
        ensures
            r == (if self.spec_width() <= usize::MAX {
                Some(self.spec_width() as usize)
            } else {
                None::<usize>
            }),
    {
        let mut total: usize = 0;
        let mut i: usize = 0;
        while i < self.fragments.len()
            invariant
                i <= self@.len(),
                total == fragments_width(self@.take(i as int)),
            decreases self@.len() - i,
        {
            proof {
                assert(self@.take(i + 1).drop_last() =~= self@.take(i as int));
                lemma_fragments_width_prefix(self@, i + 1);
            }
            match self.fragments[i].checked_width() {
                Some(w) => match total.checked_add(w) {
                    Some(t) => {
                        total = t;
                    },
                    None => {
                        return None;
                    },
                },
                None => {
                    return None;
                },
            }
            i = i + 1;
        }
        proof {
            assert(self@.take(i as int) =~= self@);
        }
        Some(total)
    }

    /// The fragments of the line, in order, for reading only.
    pub fn fragments(&self) -> (r: &[Fragment<'a>])
        ensures
            r@ == self@,
    {
        self.fragments.as_slice()
    }
}

impl<'a> Default for Line<'a> {
    fn default() -> (r: Line<'a>)
        ensures
            r@ == Seq::<Fragment<'a>>::empty(),
    {
        Line { fragments: Vec::new() }
    }
}


impl<'a> From<&'a str> for Line<'a> {
    fn from(s: &'a str) -> (r: Line<'a>)
        ensures
            r@ == seq![Fragment::Raw(Cow::Borrowed(s))],
            r.spec_plain_text() == s@,
    {
        let r = Line::with_fragments(vec![Fragment::from(s)]);
        proof {
            lemma_plain_text_single(Fragment::Raw(Cow::Borrowed(s)));
        }
        r
    }
}

impl<'a> vstd::std_specs::convert::FromSpecImpl<&'a str> for Line<'a> {
    open spec fn obeys_from_spec() -> bool {
        false
    }

    open spec fn from_spec(s: &'a str) -> Line<'a> {
        arbitrary()
    }
}


impl<'a> From<String> for Line<'a> {
    fn from(s: String) -> (r: Line<'a>)
        ensures
            r@ == seq![Fragment::Raw(Cow::Owned(s))],
            r.spec_plain_text() == s@,
    {
        let ghost f = Fragment::Raw(Cow::Owned(s));
        let r = Line::with_fragments(vec![Fragment::from(s)]);
        proof {
            lemma_plain_text_single(f);
            assert(r@ == seq![f]);
        }
        r
    }
}

impl<'a> vstd::std_specs::convert::FromSpecImpl<String> for Line<'a> {
    open spec fn obeys_from_spec() -> bool {
        false
    }

    open spec fn from_spec(s: String) -> Line<'a> {
        arbitrary()
    }
}

impl<'a> From<Vec<Fragment<'a>>> for Line<'a> {
    fn from(fragments: Vec<Fragment<'a>>) -> (r: Line<'a>)
        ensures
            r@ == fragments@,
    {
        Line { fragments }
    }
}

impl<'a> vstd::std_specs::convert::FromSpecImpl<Vec<Fragment<'a>>> for Line<'a> {
    open spec fn obeys_from_spec() -> bool {
        false
    }

    open spec fn from_spec(fragments: Vec<Fragment<'a>>) -> Line<'a> {
        arbitrary()
    }
}

impl<'a> From<Fragment<'a>> for Line<'a> {
    fn from(fragment: Fragment<'a>) -> (r: Line<'a>)
        ensures
            r@ == seq![fragment],
    {
        Line { fragments: vec![fragment] }
    }
}

impl<'a> vstd::std_specs::convert::FromSpecImpl<Fragment<'a>> for Line<'a> {
    open spec fn obeys_from_spec() -> bool {
        false
    }

    open spec fn from_spec(fragment: Fragment<'a>) -> Line<'a> {
        arbitrary()
    }
}

impl<'a> From<Line<'a>> for String {
    /// The text of the line's fragments, in order, with styles dropped.
    fn from(line: Line<'a>) -> (r: String)
        ensures
            r@ == line.spec_plain_text(),
    {
        let mut acc = String::new();
        let mut i: usize = 0;
        while i < line.fragments.len()
            invariant
                i <= line@.len(),
                acc@ == plain_text(line@.take(i as int)),
            decreases line@.len() - i,
        {
            proof {
                assert(line@.take(i + 1).drop_last() =~= line@.take(i as int));
            }
            acc.append(line.fragments[i].as_str());
            i = i + 1;
        }
        proof {
            assert(line@.take(i as int) =~= line@);
        }
        acc
    }
}

impl<'a> vstd::std_specs::convert::FromSpecImpl<Line<'a>> for String {
    open spec fn obeys_from_spec() -> bool {
        false
    }

    open spec fn from_spec(line: Line<'a>) -> String {
        arbitrary()
    }
}

/// Columns of a sequence of lines: the largest width among them, 0 for none.
pub open spec fn lines_width<'a>(ls: Seq<Line<'a>>) -> nat
    decreases ls.len(),
{
    if ls.len() == 0 {
        0
    } else {
        let rest = lines_width(ls.drop_last());
        let last = ls.last().spec_width();
        if rest >= last {
            rest
        } else {
            last
        }
    }
}

/// The width of a sequence of lines is the largest of their widths: no line
/// is wider, one line is as wide (when there is one), and no lines give 0.
pub proof fn lemma_lines_width_is_max<'a>(ls: Seq<Line<'a>>)
    ensures
        forall|i: int| 0 <= i < ls.len() ==> #[trigger] ls[i].spec_width() <= lines_width(ls),
        ls.len() == 0 ==> lines_width(ls) == 0,
        ls.len() > 0 ==> exists|i: int|
            0 <= i < ls.len() && lines_width(ls) == #[trigger] ls[i].spec_width(),
    decreases ls.len(),
{
    if ls.len() > 0 {
        let init = ls.drop_last();
        lemma_lines_width_is_max(init);
        assert forall|i: int| 0 <= i < ls.len() implies #[trigger] ls[i].spec_width()
            <= lines_width(ls) by {
            if i < init.len() {
                assert(ls[i] == init[i]);
            }
        }
        if lines_width(init) >= ls.last().spec_width() && init.len() > 0 {
            let j = choose|j: int| 0 <= j < init.len() && lines_width(init) == #[trigger] init[j].spec_width();
            assert(ls[j] == init[j]);
        } else {
            assert(lines_width(ls) == ls[ls.len() - 1].spec_width());
        }
    }
}

/// A block of terminal text: lines rendered top to bottom.
#[derive(Debug, PartialEq)]
pub struct Text<'a> {
    lines: Vec<Line<'a>>,
}

impl<'a> View for Text<'a> {
    type V = Seq<Line<'a>>;

    closed spec fn view(&self) -> Seq<Line<'a>> {
        self.lines@
    }
}

impl<'a> Text<'a> {
    /// The columns the block needs: the largest width among its lines,
    /// 0 when it has none.
    pub open spec fn spec_width(&self) -> nat {
        lines_width(self@)
    }

    /// A block of the given lines, in their order.
    pub fn with_lines(lines: Vec<Line<'a>>) -> (r: Text<'a>)
        ensures
            r@ == lines@,
    {
        Text { lines }
    }

    /// The columns the block needs to be drawn without clipping: the
    /// largest width among its lines, 0 when it has none.
    pub fn width(&self) -> (r: usize)
        requires
            self.spec_width() <= usize::MAX,
        ensures
            r == self.spec_width(),
            forall|i: int| 0 <= i < self@.len() ==> #[trigger] self@[i].spec_width() <= r,
            self@.len() == 0 ==> r == 0,
            self@.len() > 0 ==> exists|i: int|
                0 <= i < self@.len() && r == #[trigger] self@[i].spec_width(),
    {
        proof {
            lemma_lines_width_is_max(self@);
        }
        let mut best: usize = 0;
        let mut i: usize = 0;
        while i < self.lines.len()
            invariant
                i <= self@.len(),
                best == lines_width(self@.take(i as int)),
                self.spec_width() <= usize::MAX,
                forall|k: int| 0 <= k < self@.len() ==> #[trigger] self@[k].spec_width() <= usize::MAX,
            decreases self@.len() - i,
        {
            proof {
                assert(self@.take(i + 1).drop_last() =~= self@.take(i as int));
                assert(self@[i as int].spec_width() <= usize::MAX);
            }
            let w = self.lines[i].width();
            if w > best {
                best = w;
            }
            i = i + 1;
        }
        proof {
            assert(self@.take(i as int) =~= self@);
        }
        best
    }

    /// The columns the block needs, or `None` where the count does not fit
    /// in `usize`.
    pub fn checked_width(&self) -> (r: Option<usize>)
        ensures
            r == (if self.spec_width() <= usize::MAX {
                Some(self.spec_width() as usize)
            } else {
                None::<usize>
            }),
    {
        proof {
            lemma_lines_width_is_max(self@);
        }
        let mut i: usize = 0;
        while i < self.lines.len()
            invariant
                i <= self@.len(),
                forall|k: int| 0 <= k < i ==> #[trigger] self@[k].spec_width() <= usize::MAX,
            decreases self@.len() - i,
        {
            if self.lines[i].checked_width().is_none() {
                proof {
                    lemma_lines_width_is_max(self@);
                    assert(self@[i as int].spec_width() <= lines_width(self@));
                }
                return None;
            }
            i = i + 1;
        }
        proof {
            if self@.len() > 0 {
                let j = choose|j: int|
                    0 <= j < self@.len() && lines_width(self@) == #[trigger] self@[j].spec_width();
                assert(self@[j].spec_width() <= usize::MAX);
            }
        }
        Some(self.width())
    }
}

impl<'a> Default for Text<'a> {
    fn default() -> (r: Text<'a>)
        ensures
            r@ == Seq::<Line<'a>>::empty(),
    {
        Text { lines: Vec::new() }
    }
}

impl<'a> From<Vec<Line<'a>>> for Text<'a> {
    fn from(lines: Vec<Line<'a>>) -> (r: Text<'a>)
        ensures
            r@ == lines@,
    {
        Text { lines }
    }
}

impl<'a> vstd::std_specs::convert::FromSpecImpl<Vec<Line<'a>>> for Text<'a> {
    open spec fn obeys_from_spec() -> bool {
        false
    }

    open spec fn from_spec(lines: Vec<Line<'a>>) -> Text<'a> {
        arbitrary()
    }
}


/// Fragments built from the same characters agree whether the text is
/// borrowed or owned: same text, same width, same style, styled or not.
pub proof fn lemma_borrowed_and_owned_agree<'a>(b: &'a str, o: String, st: Style)
    requires
        b@ == o@,
    ensures
        Fragment::Raw(Cow::Borrowed(b)).spec_content() == Fragment::Raw(
            Cow::<'a, str>::Owned(o),
        ).spec_content(),
        Fragment::Raw(Cow::Borrowed(b)).spec_width() == Fragment::Raw(
            Cow::<'a, str>::Owned(o),
        ).spec_width(),
        Fragment::Raw(Cow::Borrowed(b)).spec_style() == Fragment::Raw(
            Cow::<'a, str>::Owned(o),
        ).spec_style(),
        Fragment::Styled(Cow::Borrowed(b), st).spec_content() == Fragment::Styled(
            Cow::<'a, str>::Owned(o),
            st,
        ).spec_content(),
        Fragment::Styled(Cow::Borrowed(b), st).spec_width() == Fragment::Styled(
            Cow::<'a, str>::Owned(o),
            st,
        ).spec_width(),
{
}

/// A fragment without a style reports the neutral style, whatever its text.
pub proof fn lemma_unstyled_has_neutral_style<'a>(f: Fragment<'a>)
    requires
        f is Raw,
    ensures
        f.spec_style() == Style::neutral(),
{
}

/// Style and text are independent: a styled fragment reports the style it
/// was given, and its text and width are those of the same text with any
/// other style or with none.
pub proof fn lemma_style_independent_of_text<'a>(c: Cow<'a, str>, st: Style, other: Style)
    ensures
        Fragment::Styled(c, st).spec_style() == st,
        Fragment::Styled(c, st).spec_content() == Fragment::Styled(c, other).spec_content(),
        Fragment::Styled(c, st).spec_content() == Fragment::Raw(c).spec_content(),
        Fragment::Styled(c, st).spec_width() == Fragment::Styled(c, other).spec_width(),
        Fragment::Styled(c, st).spec_width() == Fragment::Raw(c).spec_width(),
{
}

/// A line's width is additive: putting two runs of fragments side by side
/// gives the sum of their widths.
pub proof fn lemma_fragments_width_concat<'a>(a: Seq<Fragment<'a>>, b: Seq<Fragment<'a>>)
    ensures
        fragments_width(a + b) == fragments_width(a) + fragments_width(b),
    decreases b.len(),
{
    if b.len() == 0 {
        assert(a + b =~= a);
    } else {
        lemma_fragments_width_concat(a, b.drop_last());
        assert((a + b).drop_last() =~= a + b.drop_last());
    }
}

/// A line's plain text is the concatenation of its fragments' texts: two
/// runs of fragments side by side give their two texts one after the other.
pub proof fn lemma_plain_text_concat<'a>(a: Seq<Fragment<'a>>, b: Seq<Fragment<'a>>)
    ensures
        plain_text(a + b) == plain_text(a) + plain_text(b),
    decreases b.len(),
{
    if b.len() == 0 {
        assert(a + b =~= a);
        assert(plain_text(a) + Seq::<char>::empty() =~= plain_text(a));
    } else {
        lemma_plain_text_concat(a, b.drop_last());
        assert((a + b).drop_last() =~= a + b.drop_last());
        assert(plain_text(a) + plain_text(b.drop_last()) + b.last().spec_content()
            =~= plain_text(a) + (plain_text(b.drop_last()) + b.last().spec_content()));
    }
}

} // verus!
