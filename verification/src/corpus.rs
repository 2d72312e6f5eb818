use vstd::prelude::*;

use crate::audit::strings_view;
use crate::driver::{Chunk, DriverMetadata, IngestErrorRecord};
use crate::text::{chars_of, find_char_from, find_from, lemma_find_from, push_char};
use vstd::relations::{sorted_by, total_ordering};

verus! {

/// The first position at or after `from` that does not hold a byte order
/// mark.
pub open spec fn skip_boms(s: Seq<char>, from: int) -> int
    decreases s.len() - from,
{
    if from < 0 || from >= s.len() {
        s.len() as int
    } else if s[from] == '\u{feff}' {
        skip_boms(s, from + 1)
    } else {
        from
    }
}

/// The end (just past its newline, or the end of the text) of the line that
/// starts at `p`.
pub open spec fn line_end(s: Seq<char>, p: int) -> int {
    let q = find_from(s, '\n', p);
    if q < s.len() {
        q + 1
    } else {
        s.len() as int
    }
}

/// Whether the line `s[p..e]`, without its newline and trailing carriage
/// returns, is exactly `---`.
pub open spec fn is_close_line(s: Seq<char>, p: int, e: int) -> bool {
    let e1 = if e > p && s[e - 1] == '\n' { e - 1 } else { e };
    &&& e1 - p >= 3
    &&& s[p] == '-' && s[p + 1] == '-' && s[p + 2] == '-'
    &&& forall|k: int| p + 3 <= k < e1 ==> s[k] == '\r'
}

/// Where the text after the closing `---` line starts, scanning lines from
/// `p`; nothing when no line closes the block.
pub open spec fn find_close(s: Seq<char>, p: int) -> Option<int>
    decreases s.len() - p,
{
    if p < 0 || p >= s.len() {
        None
    } else {
        let e = line_end(s, p);
        if e <= p {
            None
        } else if is_close_line(s, p, e) {
            Some(e)
        } else {
            find_close(s, e)
        }
    }
}

/// Where the body starts once a leading YAML frontmatter block is removed:
/// after optional byte order marks, a `---` line (ended by LF or CRLF) opens
/// the block and the first line that is `---` (up to trailing carriage
/// returns) closes it. 0 when there is no such block.
pub open spec fn body_start(s: Seq<char>) -> int {
    let b = skip_boms(s, 0);
    if !(b + 3 <= s.len() && s[b] == '-' && s[b + 1] == '-' && s[b + 2] == '-') {
        0
    } else {
        let a = b + 3;
        let r0 = if a + 2 <= s.len() && s[a] == '\r' && s[a + 1] == '\n' {
            a + 2
        } else if a < s.len() && s[a] == '\n' {
            a + 1
        } else {
            -1
        };
        if r0 < 0 {
            0
        } else {
            match find_close(s, r0) {
                Some(e) => e,
                None => 0,
            }
        }
    }
}

proof fn lemma_body_start_range(s: Seq<char>)
    ensures
        0 <= body_start(s) <= s.len(),
{
    let b = skip_boms(s, 0);
    lemma_skip_boms(s, 0);
    if b + 3 <= s.len() && s[b] == '-' && s[b + 1] == '-' && s[b + 2] == '-' {
        let a = b + 3;
        let r0 = if a + 2 <= s.len() && s[a] == '\r' && s[a + 1] == '\n' {
            a + 2
        } else if a < s.len() && s[a] == '\n' {
            a + 1
        } else {
            -1
        };
        if r0 >= 0 {
            lemma_find_close_range(s, r0);
        }
    }
}

proof fn lemma_skip_boms(s: Seq<char>, from: int)
    requires
        0 <= from <= s.len(),
    ensures
        from <= skip_boms(s, from) <= s.len(),
    decreases s.len() - from,
{
    if from < s.len() && s[from] == '\u{feff}' {
        lemma_skip_boms(s, from + 1);
    }
}

proof fn lemma_find_close_range(s: Seq<char>, p: int)
    ensures
        find_close(s, p) matches Some(e) ==> 0 <= e <= s.len(),
    decreases s.len() - p,
{
    if 0 <= p < s.len() {
        lemma_find_from(s, '\n', p);
        let e = line_end(s, p);
        if e > p && !is_close_line(s, p, e) {
            lemma_find_close_range(s, e);
        }
    }
}

/// Whether the line `v[p..e]` closes the frontmatter block.
fn close_line(v: &Vec<char>, p: usize, e: usize) -> (r: bool)
    requires
        p < e <= v@.len(),
    ensures
        r == is_close_line(v@, p as int, e as int),
{
    let e1 = if v[e - 1] == '\n' { e - 1 } else { e };
    if e1 - p < 3 {
        return false;
    }
    if !(v[p] == '-' && v[p + 1] == '-' && v[p + 2] == '-') {
        return false;
    }
    let mut k = p + 3;
    while k < e1
        invariant
            p < e <= v@.len(),
            e1 == (if v@[e - 1] == '\n' { e - 1 } else { e as int }),
            p + 3 <= k <= e1 <= v@.len(),
            forall|j: int| p + 3 <= j < k ==> v@[j] == '\r',
        decreases e1 - k,
    {
        if v[k] != '\r' {
            assert(v@[k as int] != '\r');
            return false;
        }
        k = k + 1;
    }
    true
}

/// Exec counterpart of `find_close`.
fn close_position(v: &Vec<char>, from: usize) -> (r: Option<usize>)
    requires
        from <= v@.len(),
    ensures
        match find_close(v@, from as int) {
            Some(e) => r == Some(e as usize),
            None => r is None,
        },
{
    let n = v.len();
    let mut p = from;
    while p < n
        invariant
            n == v@.len(),
            from <= p <= n,
            find_close(v@, from as int) == find_close(v@, p as int),
        decreases n - p,
    {
        let q = find_char_from(v.as_slice(), '\n', p);
        let e = if q < n { q + 1 } else { n };
        assert(e as int == line_end(v@, p as int));
        if close_line(v, p, e) {
            return Some(e);
        }
        p = e;
    }
    None
}

/// Strip a leading `---` … `---` YAML frontmatter block. Handles LF, CRLF
/// and leading byte order marks. Returns the input unchanged when no
/// frontmatter is present or the block is not terminated.
pub fn strip_frontmatter(s: &str) -> (r: &str)
    ensures
        0 <= body_start(s@) <= s@.len(),
        r@ == s@.subrange(body_start(s@), s@.len() as int),
{
    proof {
        lemma_body_start_range(s@);
    }
    let v = chars_of(s);
    let n = v.len();
    let mut b: usize = 0;
    while b < n && v[b] == '\u{feff}'
        invariant
            v@ == s@,
            n == v@.len(),
            b <= n,
            skip_boms(v@, b as int) == skip_boms(v@, 0),
        decreases n - b,
    {
        b = b + 1;
    }
    assert(b == skip_boms(v@, 0));
    let start: usize = if !(n - b >= 3 && v[b] == '-' && v[b + 1] == '-' && v[b + 2] == '-') {
        0
    } else {
        let a = b + 3;
        let r0: Option<usize> = if n - a >= 2 && v[a] == '\r' && v[a + 1] == '\n' {
            Some(a + 2)
        } else if a < n && v[a] == '\n' {
            Some(a + 1)
        } else {
            None
        };
        match r0 {
            None => 0,
            Some(r0) => match close_position(&v, r0) {
                Some(e) => e,
                None => 0,
            },
        }
    };
    assert(start as int == body_start(v@));
    s.substring_char(start, n)
}

/// Whether a character has the Unicode `White_Space` property, which is
/// what `char::is_whitespace` and `str::trim` go by.
pub open spec fn is_white_space(c: char) -> bool {
    let u = c as u32;
    (0x9 <= u <= 0xD) || u == 0x20 || u == 0x85 || u == 0xA0 || u == 0x1680 || (0x2000 <= u <= 0x200A)
        || u == 0x2028 || u == 0x2029 || u == 0x202F || u == 0x205F || u == 0x3000
}

pub fn white_space(c: char) -> (r: bool)
    ensures
        r == is_white_space(c),
{
    let u = c as u32;
    (0x9 <= u && u <= 0xD) || u == 0x20 || u == 0x85 || u == 0xA0 || u == 0x1680 || (0x2000 <= u && u
        <= 0x200A) || u == 0x2028 || u == 0x2029 || u == 0x202F || u == 0x205F || u == 0x3000
}

/// A text that is empty once trimmed: every character is white space.
pub open spec fn is_blank_spec(s: Seq<char>) -> bool {
    forall|i: int| 0 <= i < s.len() ==> is_white_space(#[trigger] s[i])
}

pub fn is_blank(s: &str) -> (r: bool)
    ensures
        r == is_blank_spec(s@),
{
    let v = chars_of(s);
    let mut i: usize = 0;
    while i < v.len()
        invariant
            v@ == s@,
            i <= v@.len(),
            forall|j: int| 0 <= j < i ==> is_white_space(#[trigger] v@[j]),
        decreases v@.len() - i,
    {
        if !white_space(v[i]) {
            return false;
        }
        i = i + 1;
    }
    true
}

/// A path with every backslash turned into a forward slash.
pub open spec fn forward_slashes(s: Seq<char>) -> Seq<char> {
    s.map_values(|c: char| if c == '\\' { '/' } else { c })
}

pub fn to_forward_slashes(s: &str) -> (r: String)
    ensures
        r@ == forward_slashes(s@),
{
    let v = chars_of(s);
    let mut r = String::new();
    let mut i: usize = 0;
    while i < v.len()
        invariant
            v@ == s@,
            i <= v@.len(),
            r@ == forward_slashes(v@.subrange(0, i as int)),
        decreases v@.len() - i,
    {
        let c = v[i];
        push_char(&mut r, if c == '\\' { '/' } else { c });
        i = i + 1;
        assert(forward_slashes(v@.subrange(0, i as int)) =~= forward_slashes(v@.subrange(0, i - 1)).push(
            if c == '\\' { '/' } else { c },
        ));
    }
    assert(v@.subrange(0, v@.len() as int) =~= v@);
    r
}

/// The chunk a markdown file yields: its id and source reference are its
/// path relative to the corpus root with forward slashes, its text is the
/// file with frontmatter stripped; a file whose body is blank yields none.
pub fn chunk_for_file(relative_path: &str, raw: &str) -> (r: Option<Chunk>)
    ensures
        match r {
            Some(c) => {
                &&& !is_blank_spec(raw@.subrange(body_start(raw@), raw@.len() as int))
                &&& c.id@ == forward_slashes(relative_path@)
                &&& c.source_ref@ == forward_slashes(relative_path@)
                &&& c.text@ == raw@.subrange(body_start(raw@), raw@.len() as int)
                &&& c.metadata@.len() == 0
            },
            None => is_blank_spec(raw@.subrange(body_start(raw@), raw@.len() as int)),
        },
{
    let body = strip_frontmatter(raw);
    if is_blank(body) {
        return None;
    }
    let id = to_forward_slashes(relative_path);
    let source_ref = id.clone();
    Some(Chunk { id, text: body.to_owned(), source_ref, metadata: Vec::new() })
}

/// A driver error record.
pub fn ingest_err(kind: &str, message: &str, context: Option<&str>) -> (e: IngestErrorRecord)
    ensures
        e.kind@ == kind@,
        e.message@ == message@,
        match (e.context, context) {
            (Some(x), Some(y)) => x@ == y@,
            (None, None) => true,
            _ => false,
        },
{
    IngestErrorRecord {
        kind: kind.to_owned(),
        message: message.to_owned(),
        context: match context {
            Some(c) => Some(c.to_owned()),
            None => None,
        },
    }
}

/// A character's place in path order: the separator comes before every
/// other character, which keep their code point order.
pub open spec fn path_rank(c: char) -> int {
    if c == '/' {
        -1
    } else {
        c as u32 as int
    }
}

/// Path order on relative paths: lexicographic, component by component.
/// With `/` ranked lowest, comparing the texts character by character gives
/// exactly that order when no component is empty.
pub open spec fn path_lt(a: Seq<char>, b: Seq<char>) -> bool
    decreases a.len(),
{
    if a.len() == 0 {
        b.len() > 0
    } else if b.len() == 0 {
        false
    } else if a[0] != b[0] {
        path_rank(a[0]) < path_rank(b[0])
    } else {
        path_lt(a.drop_first(), b.drop_first())
    }
}

/// `a` equals `b` or comes before it in path order.
pub open spec fn path_order() -> spec_fn(Seq<char>, Seq<char>) -> bool {
    |a: Seq<char>, b: Seq<char>| a == b || path_lt(a, b)
}

proof fn lemma_path_lt_irreflexive(a: Seq<char>)
    ensures
        !path_lt(a, a),
    decreases a.len(),
{
    if a.len() > 0 {
        lemma_path_lt_irreflexive(a.drop_first());
    }
}

proof fn lemma_path_lt_transitive(a: Seq<char>, b: Seq<char>, c: Seq<char>)
    requires
        path_lt(a, b),
        path_lt(b, c),
    ensures
        path_lt(a, c),
    decreases a.len(),
{
    if a.len() > 0 && b.len() > 0 && c.len() > 0 {
        if a[0] == b[0] && b[0] == c[0] {
            lemma_path_lt_transitive(a.drop_first(), b.drop_first(), c.drop_first());
        }
    }
}

proof fn lemma_path_rank_injective(x: char, y: char)
    requires
        x != y,
    ensures
        path_rank(x) != path_rank(y),
{
    vstd::utf8::char_u32_cast(x, x as u32);
    vstd::utf8::char_u32_cast(y, y as u32);
}

proof fn lemma_path_lt_total(a: Seq<char>, b: Seq<char>)
    ensures
        a =~= b || path_lt(a, b) || path_lt(b, a),
    decreases a.len(),
{
    if a.len() > 0 && b.len() > 0 && a[0] != b[0] {
        lemma_path_rank_injective(a[0], b[0]);
    }
    if a.len() > 0 && b.len() > 0 && a[0] == b[0] {
        lemma_path_lt_total(a.drop_first(), b.drop_first());
        if a.drop_first() =~= b.drop_first() {
            assert(a =~= seq![a[0]] + a.drop_first());
            assert(b =~= seq![b[0]] + b.drop_first());
        }
    }
}

proof fn lemma_path_lt_asymmetric(a: Seq<char>, b: Seq<char>)
    requires
        path_lt(a, b),
    ensures
        !path_lt(b, a),
{
    if path_lt(b, a) {
        lemma_path_lt_transitive(a, b, a);
        lemma_path_lt_irreflexive(a);
    }
}

/// Path order is a total order.
pub proof fn lemma_path_order_total()
    ensures
        total_ordering(path_order()),
{
    let r = path_order();
    assert forall|a: Seq<char>, b: Seq<char>| #[trigger] r(a, b) && #[trigger] r(b, a) implies a == b by {
        if a != b {
            lemma_path_lt_asymmetric(a, b);
        }
    }
    assert forall|a: Seq<char>, b: Seq<char>, c: Seq<char>| #[trigger] r(a, b) && #[trigger] r(b, c) implies r(a, c) by {
        if a != b && b != c {
            lemma_path_lt_transitive(a, b, c);
        }
    }
    assert forall|a: Seq<char>, b: Seq<char>| #[trigger] r(a, b) || #[trigger] r(b, a) by {
        lemma_path_lt_total(a, b);
    }
}

/// Whether `a` comes strictly before `b` in path order.
pub fn path_before(a: &str, b: &str) -> (r: bool)
    ensures
        r == path_lt(a@, b@),
{
    let x = chars_of(a);
    let y = chars_of(b);
    let mut i: usize = 0;
    assert(x@.subrange(0, x@.len() as int) =~= x@);
    assert(y@.subrange(0, y@.len() as int) =~= y@);
    while i < x.len() && i < y.len()
        invariant
            x@ == a@,
            y@ == b@,
            i <= x@.len(),
            i <= y@.len(),
            path_lt(x@, y@) == path_lt(x@.subrange(i as int, x@.len() as int), y@.subrange(i as int, y@.len() as int)),
        decreases x@.len() - i,
    {
        let p = x[i];
        let q = y[i];
        let ghost xs = x@.subrange(i as int, x@.len() as int);
        let ghost ys = y@.subrange(i as int, y@.len() as int);
        if p != q {
            assert(xs[0] == p && ys[0] == q);
            if p == '/' {
                return true;
            }
            if q == '/' {
                return false;
            }
            return (p as u32) < (q as u32);
        }
        assert(xs.drop_first() =~= x@.subrange(i + 1, x@.len() as int));
        assert(ys.drop_first() =~= y@.subrange(i + 1, y@.len() as int));
        i = i + 1;
    }
    i < y.len()
}

/// Sort relative paths into path order.
pub fn sort_paths(paths: Vec<String>) -> (r: Vec<String>)
    ensures
        strings_view(r@) == strings_view(paths@).sort_by(path_order()),
{
    let ghost orig = strings_view(paths@);
    let ghost ord = path_order();
    let mut rest = paths;
    let mut out: Vec<String> = Vec::new();
    proof {
        broadcast use vstd::multiset::group_multiset_axioms;
        lemma_path_order_total();
        assert(strings_view(out@) =~= Seq::<Seq<char>>::empty());
        strings_view(out@).to_multiset_ensures();
        vstd::multiset::lemma_multiset_empty_len(strings_view(out@).to_multiset());
        assert(strings_view(rest@) == orig);
        assert(strings_view(out@).to_multiset().add(strings_view(rest@).to_multiset()) =~= orig.to_multiset());
    }
    while rest.len() > 0
        invariant
            ord == path_order(),
            total_ordering(ord),
            sorted_by(strings_view(out@), ord),
            strings_view(out@).to_multiset().add(strings_view(rest@).to_multiset()) == orig.to_multiset(),
        decreases rest@.len(),
    {
        let ghost rest_before = strings_view(rest@);
        let ghost out_before = strings_view(out@);
        let p = rest.pop().unwrap();
        proof {
            assert(rest_before =~= strings_view(rest@).push(p@));
            vstd::seq_lib::to_multiset_build(strings_view(rest@), p@);
        }
        let mut j: usize = 0;
        while j < out.len() && !path_before(p.as_str(), out[j].as_str())
            invariant
                j <= out@.len(),
                out_before == strings_view(out@),
                forall|k: int| 0 <= k < j ==> !path_lt(p@, #[trigger] out_before[k]),
            decreases out@.len() - j,
        {
            j = j + 1;
        }
        out.insert(j, p);
        proof {
            let nv = strings_view(out@);
            assert(nv =~= out_before.insert(j as int, p@));
            vstd::seq_lib::to_multiset_insert(out_before, j as int, p@);
            assert forall|a: int, b: int| 0 <= a < b < nv.len() implies #[trigger] ord(nv[a], nv[b]) by {
                if b < j {
                    assert(ord(out_before[a], out_before[b]));
                } else if a < j && b == j {
                    lemma_path_lt_total(p@, out_before[a]);
                } else if a < j && b > j {
                    assert(ord(out_before[a], out_before[b - 1]));
                } else if a == j {
                    if j < out_before.len() {
                        assert(path_lt(p@, out_before[j as int]));
                        assert(ord(out_before[j as int], out_before[b - 1]));
                        if out_before[j as int] != out_before[b - 1] {
                            lemma_path_lt_transitive(p@, out_before[j as int], out_before[b - 1]);
                        }
                    }
                } else {
                    assert(ord(out_before[a - 1], out_before[b - 1]));
                }
            }
            assert(nv.to_multiset().add(strings_view(rest@).to_multiset()) =~= orig.to_multiset()) by {
                broadcast use vstd::multiset::group_multiset_axioms;
            }
        }
    }
    proof {
        broadcast use vstd::multiset::group_multiset_axioms;
        assert(strings_view(rest@) =~= Seq::<Seq<char>>::empty());
        strings_view(rest@).to_multiset_ensures();
        vstd::multiset::lemma_multiset_empty_len(strings_view(rest@).to_multiset());
        assert(strings_view(out@).to_multiset() =~= orig.to_multiset());
        orig.lemma_sort_by_ensures(ord);
        vstd::seq_lib::lemma_sorted_unique(strings_view(out@), orig.sort_by(ord), ord);
    }
    out
}

/// Two walks over the same files visit them in the same order, whatever
/// order the files were found in.
pub proof fn law_walk_order_independent(a: Seq<Seq<char>>, b: Seq<Seq<char>>)
    requires
        a.to_multiset() == b.to_multiset(),
    ensures
        a.sort_by(path_order()) == b.sort_by(path_order()),
{
    lemma_path_order_total();
    a.lemma_sort_by_ensures(path_order());
    b.lemma_sort_by_ensures(path_order());
    vstd::seq_lib::lemma_sorted_unique(a.sort_by(path_order()), b.sort_by(path_order()), path_order());
}

/// The chunk a file yields, as (id, text): none when its body is blank.
pub open spec fn chunk_of_file(path: Seq<char>, raw: Seq<char>) -> Seq<(Seq<char>, Seq<char>)> {
    let body = raw.subrange(body_start(raw), raw.len() as int);
    if is_blank_spec(body) {
        Seq::empty()
    } else {
        seq![(forward_slashes(path), body)]
    }
}

/// The chunks, as (id, text), that a walk over `files` emits when reading
/// its files in order gives `contents`: one per file whose body is not
/// blank, in the files' order.
pub open spec fn walk_chunks(files: Seq<Seq<char>>, contents: Seq<Seq<char>>) -> Seq<(Seq<char>, Seq<char>)>
    decreases contents.len(),
{
    if contents.len() == 0 {
        Seq::empty()
    } else {
        walk_chunks(files, contents.drop_last()) + chunk_of_file(files[contents.len() - 1], contents.last())
    }
}

/// The files of a corpus, in path order, and how many have been handed out;
/// what reading them gave, and the chunks emitted from them.
pub struct CorpusWalk {
    files: Vec<String>,
    cursor: usize,
    /// A path was handed out and its contents not yet reported.
    pending: bool,
    contents: Ghost<Seq<Seq<char>>>,
    emitted: Ghost<Seq<(Seq<char>, Seq<char>)>>,
    complete: Ghost<bool>,
}

impl CorpusWalk {
    /// The relative paths still to visit and those visited, in order.
    pub closed spec fn files(&self) -> Seq<Seq<char>> {
        strings_view(self.files@)
    }

    /// How many paths have been handed out.
    pub closed spec fn cursor(&self) -> nat {
        self.cursor as nat
    }

    /// Whether the last path handed out still waits for its contents.
    pub closed spec fn pending(&self) -> bool {
        self.pending
    }

    /// The contents reported for the paths read, in order.
    pub closed spec fn contents(&self) -> Seq<Seq<char>> {
        self.contents@
    }

    /// The chunks emitted so far, as (id, text), in order.
    pub closed spec fn emitted(&self) -> Seq<(Seq<char>, Seq<char>)> {
        self.emitted@
    }

    /// No path handed out was left unread.
    pub closed spec fn complete(&self) -> bool {
        self.complete@
    }

    pub closed spec fn wf(&self) -> bool {
        &&& self.cursor <= self.files@.len()
        &&& self.pending ==> self.cursor > 0
        &&& self.complete@ ==> {
            &&& self.contents@.len() + (if self.pending { 1int } else { 0int }) == self.cursor
            &&& self.emitted@ == walk_chunks(self.files(), self.contents@)
        }
    }

    /// What `next_file` does: hands out the next path and marks it as
    /// waiting for its contents (a path still waiting is left unread), or,
    /// past the last path, answers `None` and changes nothing.
    pub open spec fn next_file_step(before: CorpusWalk, after: CorpusWalk, r: Option<String>) -> bool {
        &&& after.wf()
        &&& after.files() == before.files()
        &&& after.contents() == before.contents()
        &&& after.emitted() == before.emitted()
        &&& after.complete() == (before.complete() && (!before.pending() || r is None))
        &&& before.cursor() < before.files().len() ==> {
            &&& r matches Some(p) && p@ == before.files()[before.cursor() as int]
            &&& after.cursor() == before.cursor() + 1
            &&& after.pending()
        }
        &&& before.cursor() >= before.files().len() ==> r is None && after.cursor() == before.cursor()
            && after.pending() == before.pending()
    }

    /// What `file_read` does with the contents `raw` of the path waiting
    /// for them: records them and gives the chunk that file yields (none
    /// when its body is blank); without a waiting path it changes nothing.
    pub open spec fn file_read_step(before: CorpusWalk, after: CorpusWalk, raw: Seq<char>, r: Option<Chunk>) -> bool {
        &&& after.wf()
        &&& after.files() == before.files()
        &&& after.cursor() == before.cursor()
        &&& after.complete() == before.complete()
        &&& !after.pending()
        &&& !before.pending() ==> r is None && after.contents() == before.contents() && after.emitted()
            == before.emitted()
        &&& before.pending() ==> {
            let path = before.files()[before.cursor() - 1];
            &&& after.contents() == before.contents().push(raw)
            &&& after.emitted() == before.emitted() + chunk_of_file(path, raw)
            &&& match r {
                Some(c) => {
                    &&& chunk_of_file(path, raw) == seq![(c.id@, c.text@)]
                    &&& c.source_ref@ == c.id@
                    &&& c.metadata@.len() == 0
                },
                None => chunk_of_file(path, raw).len() == 0,
            }
        }
    }

    /// A walk over the given relative paths, sorted into path order, so that
    /// every run visits the same files in the same order.
    pub fn new(found: Vec<String>) -> (w: Self)
        ensures
            w.wf(),
            w.files() == strings_view(found@).sort_by(path_order()),
            w.cursor() == 0,
            !w.pending(),
            w.contents() == Seq::<Seq<char>>::empty(),
            w.emitted() == Seq::<(Seq<char>, Seq<char>)>::empty(),
            w.complete(),
    {
        CorpusWalk {
            files: sort_paths(found),
            cursor: 0,
            pending: false,
            contents: Ghost(Seq::empty()),
            emitted: Ghost(Seq::empty()),
            complete: Ghost(true),
        }
    }

    /// The next path to read, or `None` once every path was handed out. A
    /// path handed out before whose contents were not reported is skipped.
    pub fn next_file(&mut self) -> (r: Option<String>)
        requires
            old(self).wf(),
        ensures
            CorpusWalk::next_file_step(*old(self), *final(self), r),
    {
        if self.cursor >= self.files.len() {
            return None;
        }
        let p = self.files[self.cursor].clone();
        self.cursor = self.cursor + 1;
        if self.pending {
            self.complete = Ghost(false);
        }
        self.pending = true;
        Some(p)
    }

    /// Report what reading the last path handed out gave: the chunk that
    /// file yields (none when its body is blank). Without a path waiting for
    /// its contents, nothing happens.
    pub fn file_read(&mut self, raw: &str) -> (r: Option<Chunk>)
        requires
            old(self).wf(),
        ensures
            CorpusWalk::file_read_step(*old(self), *final(self), raw@, r),
    {
        if !self.pending {
            return None;
        }
        let path = &self.files[self.cursor - 1];
        let r = chunk_for_file(path.as_str(), raw);
        let ghost old_contents = self.contents@;
        proof {
            let ps = path@;
            let body = raw@.subrange(body_start(raw@), raw@.len() as int);
            if self.complete@ {
                assert(old_contents.push(raw@).drop_last() =~= old_contents);
                assert(self.files()[old_contents.len() as int] == ps);
                assert(walk_chunks(self.files(), old_contents.push(raw@)) == walk_chunks(self.files(), old_contents)
                    + chunk_of_file(ps, raw@));
            }
            if r is None {
                assert(chunk_of_file(ps, raw@) =~= Seq::<(Seq<char>, Seq<char>)>::empty());
            }
        }
        self.contents = Ghost(old_contents.push(raw@));
        self.emitted = Ghost(self.emitted@ + chunk_of_file(path@, raw@));
        self.pending = false;
        r
    }
}

/// The markdown driver's state: the walk over its corpus between `init` and
/// `finish`, and none before `init` or after `finish`.
pub struct CorpusSession {
    walk: Option<CorpusWalk>,
}

/// The refusal of a call that needs a walk before one was started.
pub open spec fn before_init(e: IngestErrorRecord) -> bool {
    &&& e.kind@ == "config"@
    &&& e.message@ == "next_chunk called before init"@
    &&& e.context is None
}

impl CorpusSession {
    /// The walk under way, if any.
    pub closed spec fn walk(&self) -> Option<CorpusWalk> {
        self.walk
    }

    pub closed spec fn wf(&self) -> bool {
        self.walk matches Some(w) ==> w.wf()
    }

    /// No walk under way.
    pub fn idle() -> (s: Self)
        ensures
            s.wf(),
            s.walk() is None,
    {
        CorpusSession { walk: None }
    }

    /// Start (or start again) a walk over the relative paths found.
    pub fn start(&mut self, found: Vec<String>)
        ensures
            final(self).wf(),
            final(self).walk() matches Some(w) && {
                &&& w.files() == strings_view(found@).sort_by(path_order())
                &&& w.cursor() == 0
                &&& !w.pending()
                &&& w.contents() == Seq::<Seq<char>>::empty()
                &&& w.emitted() == Seq::<(Seq<char>, Seq<char>)>::empty()
                &&& w.complete()
            },
    {
        self.walk = Some(CorpusWalk::new(found));
    }

    /// End the walk.
    pub fn stop(&mut self)
        ensures
            final(self).wf(),
            final(self).walk() is None,
    {
        self.walk = None;
    }

    /// The next path to read (as `CorpusWalk::next_file`); refused before a
    /// walk was started.
    pub fn next_file(&mut self) -> (r: Result<Option<String>, IngestErrorRecord>)
        requires
            old(self).wf(),
        ensures
            final(self).wf(),
            match old(self).walk() {
                None => (r matches Err(e) && before_init(e)) && final(self).walk() is None,
                Some(w) => final(self).walk() matches Some(w2) && (r matches Ok(p) && CorpusWalk::next_file_step(w, w2, p)),
            },
    {
        match &mut self.walk {
            None => Err(ingest_err("config", "next_chunk called before init", None)),
            Some(w) => Ok(w.next_file()),
        }
    }

    /// Report the contents of the path just handed out (as
    /// `CorpusWalk::file_read`); nothing happens without a walk.
    pub fn file_read(&mut self, raw: &str) -> (r: Option<Chunk>)
        requires
            old(self).wf(),
        ensures
            final(self).wf(),
            match old(self).walk() {
                None => final(self).walk() is None && r is None,
                Some(w) => final(self).walk() matches Some(w2) && CorpusWalk::file_read_step(w, w2, raw@, r),
            },
    {
        match &mut self.walk {
            None => None,
            Some(w) => w.file_read(raw),
        }
    }
}

/// The walk emits each file whose body is not blank once, in path order:
/// as long as no path handed out was left unread, the chunks emitted are
/// exactly those of the files read so far, which are the first files of
/// the walk; once `next_file` has answered `None`, every file was read.
pub proof fn law_walk_emits_in_order(w: CorpusWalk)
    requires
        w.wf(),
        w.complete(),
    ensures
        w.emitted() == walk_chunks(w.files(), w.contents()),
        w.contents().len() + (if w.pending() { 1int } else { 0int }) == w.cursor(),
        w.cursor() <= w.files().len(),
{
}

/// What the markdown corpus driver says of itself.
pub fn corpus_driver_metadata() -> (m: DriverMetadata)
    ensures
        m.name@ == "bhs-corpus"@,
        m.description@ == "BHS markdown corpus — strips YAML frontmatter, emits one chunk per file"@,
        strings_view(m.accepts@) == seq!["*.md"@],
{
    let mut accepts: Vec<String> = Vec::new();
    accepts.push("*.md".to_owned());
    let m = DriverMetadata {
        name: "bhs-corpus".to_owned(),
        description: "BHS markdown corpus — strips YAML frontmatter, emits one chunk per file".to_owned(),
        accepts,
    };
    assert(strings_view(m.accepts@) =~= seq!["*.md"@]);
    m
}

/// Two walks over the same files start alike: a second walk (as after a
/// second `init`) hands out the same paths in the same order, from the
/// first.
pub proof fn law_walk_restarts(first: CorpusWalk, second: CorpusWalk, found_first: Seq<Seq<char>>, found_second: Seq<Seq<char>>)
    requires
        found_first.to_multiset() == found_second.to_multiset(),
        first.files() == found_first.sort_by(path_order()),
        second.files() == found_second.sort_by(path_order()),
        second.cursor() == 0,
    ensures
        second.files() == first.files(),
        first.files().len() > 0 ==> second.files()[second.cursor() as int] == first.files()[0],
{
    law_walk_order_independent(found_first, found_second);
}

/// Whether a path holds no backslash.
pub open spec fn no_backslash(p: Seq<char>) -> bool {
    forall|i: int| 0 <= i < p.len() ==> p[i] != '\\'
}

proof fn lemma_forward_slashes_id(p: Seq<char>)
    requires
        no_backslash(p),
    ensures
        forward_slashes(p) == p,
{
    assert(forward_slashes(p) =~= p);
}

/// Every chunk a walk emits comes from one of the files read (at the
/// position `src` gives), and the chunks come from files in ascending
/// position.
proof fn lemma_walk_chunk_sources(files: Seq<Seq<char>>, contents: Seq<Seq<char>>) -> (src: Seq<int>)
    requires
        contents.len() <= files.len(),
    ensures
        src.len() == walk_chunks(files, contents).len(),
        forall|t: int|
            0 <= t < src.len() ==> 0 <= #[trigger] src[t] < contents.len() && walk_chunks(files, contents)[t].0
                == forward_slashes(files[src[t]]),
        forall|t: int, u: int| 0 <= t < u < src.len() ==> #[trigger] src[t] < #[trigger] src[u],
    decreases contents.len(),
{
    if contents.len() == 0 {
        Seq::empty()
    } else {
        let prev = contents.drop_last();
        let src0 = lemma_walk_chunk_sources(files, prev);
        let n = contents.len() - 1;
        let extra = chunk_of_file(files[n], contents.last());
        let w = walk_chunks(files, contents);
        assert(w == walk_chunks(files, prev) + extra);
        if extra.len() == 0 {
            assert(w =~= walk_chunks(files, prev));
            src0
        } else {
            let src = src0.push(n);
            assert forall|t: int| 0 <= t < src.len() implies 0 <= #[trigger] src[t] < contents.len()
                && w[t].0 == forward_slashes(files[src[t]]) by {
                if t < src0.len() {
                    assert(src[t] == src0[t]);
                    assert(w[t] == walk_chunks(files, prev)[t]);
                }
            }
            assert forall|t: int, u: int| 0 <= t < u < src.len() implies #[trigger] src[t] < #[trigger] src[u] by {
                if u < src0.len() {
                    assert(src[t] == src0[t] && src[u] == src0[u]);
                } else {
                    assert(src[t] == src0[t]);
                }
            }
            src
        }
    }
}

/// Chunk ids are distinct: when the walk was made from paths that stay
/// distinct once backslashes become slashes, the chunks it emits carry
/// pairwise distinct ids.
pub proof fn law_walk_ids_distinct(found: Seq<Seq<char>>, contents: Seq<Seq<char>>)
    requires
        forall|i: int, j: int|
            0 <= i < found.len() && 0 <= j < found.len() && i != j ==> forward_slashes(#[trigger] found[i])
                != forward_slashes(#[trigger] found[j]),
        contents.len() <= found.len(),
    ensures
        ({
            let w = walk_chunks(found.sort_by(path_order()), contents);
            forall|t: int, u: int| 0 <= t < u < w.len() ==> (#[trigger] w[t]).0 != (#[trigger] w[u]).0
        }),
{
    broadcast use vstd::seq_lib::group_to_multiset_ensures;
    let files = found.sort_by(path_order());
    lemma_path_order_total();
    found.lemma_sort_by_ensures(path_order());
    assert(found.no_duplicates()) by {
        assert forall|i: int, j: int| 0 <= i < found.len() && 0 <= j < found.len() && i != j implies found[i]
            != found[j] by {
            assert(forward_slashes(found[i]) != forward_slashes(found[j]));
        }
    }
    found.lemma_multiset_has_no_duplicates();
    files.lemma_multiset_has_no_duplicates_conv();
    found.to_multiset_ensures();
    files.to_multiset_ensures();
    assert(files.len() == found.len());
    // Each file is one of the found paths.
    assert forall|a: int| 0 <= a < files.len() implies exists|i: int| 0 <= i < found.len() && found[i] == #[trigger] files[a] by {
        assert(files.to_multiset().count(files[a]) > 0);
        assert(found.contains(files[a]));
    }
    let src = lemma_walk_chunk_sources(files, contents);
    let w = walk_chunks(files, contents);
    assert forall|t: int, u: int| 0 <= t < u < w.len() implies (#[trigger] w[t]).0 != (#[trigger] w[u]).0 by {
        let a = src[t];
        let b = src[u];
        assert(a < b);
        let i = choose|i: int| 0 <= i < found.len() && found[i] == files[a];
        let j = choose|j: int| 0 <= j < found.len() && found[j] == files[b];
        assert(files[a] != files[b]);
        assert(i != j);
        assert(forward_slashes(found[i]) != forward_slashes(found[j]));
    }
}

/// A path without backslashes is unchanged by turning them into slashes, so
/// distinct such paths stay distinct.
pub proof fn lemma_no_backslash_distinct(p: Seq<char>, q: Seq<char>)
    requires
        no_backslash(p),
        no_backslash(q),
        p != q,
    ensures
        forward_slashes(p) != forward_slashes(q),
{
    lemma_forward_slashes_id(p);
    lemma_forward_slashes_id(q);
}

/// Two sessions started over the same files (as by a second `init`) are in
/// the same state: the same paths in the same order, nothing handed out,
/// read or emitted; so the same reads give them the same chunks.
pub proof fn law_session_restart(first: CorpusSession, second: CorpusSession, found_first: Seq<Seq<char>>, found_second: Seq<Seq<char>>)
    requires
        found_first.to_multiset() == found_second.to_multiset(),
        first.walk() matches Some(w) && w.files() == found_first.sort_by(path_order()) && w.cursor() == 0
            && !w.pending() && w.contents().len() == 0 && w.emitted().len() == 0,
        second.walk() matches Some(w) && w.files() == found_second.sort_by(path_order()) && w.cursor() == 0
            && !w.pending() && w.contents().len() == 0 && w.emitted().len() == 0,
    ensures
        ({
            let a = first.walk()->Some_0;
            let b = second.walk()->Some_0;
            &&& a.files() == b.files()
            &&& a.cursor() == b.cursor()
            &&& a.pending() == b.pending()
            &&& a.contents() == b.contents()
            &&& a.emitted() == b.emitted()
        }),
{
    law_walk_order_independent(found_first, found_second);
    let a = first.walk()->Some_0;
    let b = second.walk()->Some_0;
    assert(a.contents() =~= b.contents());
    assert(a.emitted() =~= b.emitted());
}

/// Whether two walks are in the same observable state.
pub open spec fn same_walk_state(a: CorpusWalk, b: CorpusWalk) -> bool {
    &&& a.files() == b.files()
    &&& a.cursor() == b.cursor()
    &&& a.pending() == b.pending()
    &&& a.contents() == b.contents()
    &&& a.emitted() == b.emitted()
}

/// Walks in the same state stay together: handing out the next path gives
/// both the same path, and reporting the same contents gives both the same
/// chunk; afterwards they are again in the same state. With
/// `law_session_restart`, a second `init` therefore yields the same chunks
/// as the first, given the same files.
pub proof fn law_walk_steps_agree(
    a: CorpusWalk,
    b: CorpusWalk,
    a_next: CorpusWalk,
    b_next: CorpusWalk,
    raw: Seq<char>,
    ra: Option<Chunk>,
    rb: Option<Chunk>,
    pa: Option<String>,
    pb: Option<String>,
    read: bool,
)
    requires
        same_walk_state(a, b),
        !read ==> CorpusWalk::next_file_step(a, a_next, pa) && CorpusWalk::next_file_step(b, b_next, pb),
        read ==> CorpusWalk::file_read_step(a, a_next, raw, ra) && CorpusWalk::file_read_step(b, b_next, raw, rb),
    ensures
        same_walk_state(a_next, b_next),
        !read ==> match (pa, pb) {
            (Some(x), Some(y)) => x@ == y@,
            (None, None) => true,
            _ => false,
        },
        read ==> match (ra, rb) {
            (Some(x), Some(y)) => x.id@ == y.id@ && x.text@ == y.text@ && x.source_ref@ == y.source_ref@,
            (None, None) => true,
            _ => false,
        },
{
    if read && a.pending() {
        let path = a.files()[a.cursor() - 1];
        if ra is Some && rb is Some {
            let x = ra->Some_0;
            let y = rb->Some_0;
            assert(seq![(x.id@, x.text@)] == seq![(y.id@, y.text@)]);
            assert(seq![(x.id@, x.text@)][0] == seq![(y.id@, y.text@)][0]);
        }
    }
}

/// A frontmatter block closes at the first `---` line, however many lines
/// it holds: for an opening `---` line, then lines holding no dash, then a
/// `---` line, the body is everything after that closing line.
pub proof fn law_frontmatter_closes_at_first_dash_line(m: Seq<char>, b: Seq<char>)
    requires
        forall|i: int| 0 <= i < m.len() ==> m[i] != '-',
        m.len() == 0 || m.last() == '\n',
    ensures
        ({
            let s = seq!['-', '-', '-', '\n'] + m + seq!['-', '-', '-', '\n'] + b;
            &&& body_start(s) == 8 + m.len()
            &&& s.subrange(body_start(s), s.len() as int) == b
        }),
{
    let s = seq!['-', '-', '-', '\n'] + m + seq!['-', '-', '-', '\n'] + b;
    let c: int = 4 + m.len() as int;
    assert(s[0] == '-' && s[1] == '-' && s[2] == '-' && s[3] == '\n');
    assert(skip_boms(s, 0) == 0);
    assert(s[c] == '-' && s[c + 1] == '-' && s[c + 2] == '-' && s[c + 3] == '\n');
    assert forall|i: int| 4 <= i < c implies s[i] != '-' by {
        assert(s[i] == m[i - 4]);
    }
    if m.len() > 0 {
        assert(s[c - 1] == '\n');
    }
    lemma_find_close_through(s, 4, c);
    assert(s.subrange(c + 4, s.len() as int) =~= b);
}

/// From a position in a run of lines holding no dash that ends with a
/// newline just before a `---` line at `c`, the block closes just after
/// that line.
proof fn lemma_find_close_through(s: Seq<char>, p: int, c: int)
    requires
        4 <= p <= c,
        c + 4 <= s.len(),
        s[c] == '-' && s[c + 1] == '-' && s[c + 2] == '-' && s[c + 3] == '\n',
        forall|i: int| p <= i < c ==> s[i] != '-',
        p < c ==> s[c - 1] == '\n',
    ensures
        find_close(s, p) == Some(c + 4),
    decreases c - p,
{
    lemma_find_from(s, '\n', p);
    if p == c {
        assert(find_from(s, '\n', p) == c + 3) by {
            if find_from(s, '\n', p) < c + 3 {
                let q = find_from(s, '\n', p);
                assert(s[q] == '\n');
            }
        }
        assert(line_end(s, p) == c + 4);
        assert(is_close_line(s, p, c + 4));
    } else {
        let q = find_from(s, '\n', p);
        assert(q <= c - 1) by {
            if q > c - 1 {
                assert(s[c - 1] != '\n');
            }
        }
        let e = line_end(s, p);
        assert(e == q + 1);
        assert(!is_close_line(s, p, e)) by {
            assert(s[p] != '-');
        }
        lemma_find_close_through(s, e, c);
    }
}

} // verus!
