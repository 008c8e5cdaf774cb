use vstd::prelude::*;

verus! {

/// The kind of a path component, in the order in which paths compare them.
#[derive(PartialEq, Eq, Structural, Clone, Copy, Debug)]
pub enum ComponentKind {
    RootDir,
    CurDir,
    ParentDir,
    Normal,
}

/// A component of a path: its kind, and for a `Normal` component its name.
pub type Comp = (ComponentKind, Seq<char>);

pub open spec fn kind_rank(k: ComponentKind) -> int {
    match k {
        ComponentKind::RootDir => 0,
        ComponentKind::CurDir => 1,
        ComponentKind::ParentDir => 2,
        ComponentKind::Normal => 3,
    }
}

/// The component that one `/`-delimited segment stands for: empty segments and
/// `.` vanish, `..` is the parent directory, anything else is a name.
pub open spec fn segment_comps(seg: Seq<char>) -> Seq<Comp> {
    if seg.len() == 0 || seg =~= seq!['.'] {
        seq![]
    } else if seg =~= seq!['.', '.'] {
        seq![(ComponentKind::ParentDir, Seq::<char>::empty())]
    } else {
        seq![(ComponentKind::Normal, seg)]
    }
}

/// Splitting a path left to right: the components of the finished segments,
/// and the segment still being read.
pub open spec fn split_state(p: Seq<char>) -> (Seq<Comp>, Seq<char>)
    decreases p.len(),
{
    if p.len() == 0 {
        (seq![], seq![])
    } else {
        let prev = split_state(p.drop_last());
        if p.last() == '/' {
            (prev.0 + segment_comps(prev.1), seq![])
        } else {
            (prev.0, prev.1.push(p.last()))
        }
    }
}

/// The component that starts a path: the root for an absolute path, the current
/// directory for a relative path that is `.` or starts with `./`.
pub open spec fn head_comps(p: Seq<char>) -> Seq<Comp> {
    if p.len() > 0 && p[0] == '/' {
        seq![(ComponentKind::RootDir, Seq::<char>::empty())]
    } else if p =~= seq!['.'] || (p.len() >= 2 && p[0] == '.' && p[1] == '/') {
        seq![(ComponentKind::CurDir, Seq::<char>::empty())]
    } else {
        seq![]
    }
}

/// The components of a Unix path, as `Path::components` yields them.
pub open spec fn components(p: Seq<char>) -> Seq<Comp> {
    head_comps(p) + split_state(p).0 + segment_comps(split_state(p).1)
}

/// How two characters compare by code point: -1, 0 or 1.
pub open spec fn char_order(x: char, y: char) -> int {
    if x < y { -1 } else if x > y { 1 } else { 0 }
}

pub open spec fn char_elem() -> spec_fn(char, char) -> int {
    |x: char, y: char| char_order(x, y)
}

/// Lexicographic comparison of two sequences from position `i` on, with `elem`
/// comparing elements: -1, 0 or 1.
pub open spec fn lex_order_from<T>(a: Seq<T>, b: Seq<T>, i: int, elem: spec_fn(T, T) -> int) -> int
    decreases a.len() - i,
{
    if i < 0 || i >= a.len() {
        if i >= 0 && i < b.len() { -1 } else { 0 }
    } else if i >= b.len() {
        1
    } else if elem(a[i], b[i]) != 0 {
        elem(a[i], b[i])
    } else {
        lex_order_from(a, b, i + 1, elem)
    }
}

/// `f` is a three-way comparison of a total order whose ties are equal values.
pub open spec fn is_total_order<T>(f: spec_fn(T, T) -> int) -> bool {
    &&& forall|x: T, y: T| #[trigger] f(x, y) == -f(y, x)
    &&& forall|x: T, y: T| #[trigger] f(x, y) == 0 <==> x == y
    &&& forall|x: T, y: T| -1 <= #[trigger] f(x, y) <= 1
    &&& forall|x: T, y: T, z: T|
        #![trigger f(x, y), f(y, z)]
        f(x, y) <= 0 && f(y, z) <= 0 ==> f(x, z) <= 0
}

pub open spec fn chars_order(a: Seq<char>, b: Seq<char>) -> int {
    lex_order_from(a, b, 0, char_elem())
}

pub open spec fn comp_order(a: Comp, b: Comp) -> int {
    if kind_rank(a.0) < kind_rank(b.0) {
        -1
    } else if kind_rank(a.0) > kind_rank(b.0) {
        1
    } else {
        chars_order(a.1, b.1)
    }
}

pub open spec fn comp_elem() -> spec_fn(Comp, Comp) -> int {
    |x: Comp, y: Comp| comp_order(x, y)
}

/// How two paths compare, component by component, as `Path`'s `Ord` does.
pub open spec fn path_order(a: Seq<char>, b: Seq<char>) -> int {
    lex_order_from(components(a), components(b), 0, comp_elem())
}

/// Two strings name the same path when their components are equal.
pub open spec fn same_path(a: Seq<char>, b: Seq<char>) -> bool {
    components(a) =~= components(b)
}


pub proof fn lemma_lex_bounds<T>(a: Seq<T>, b: Seq<T>, i: int, elem: spec_fn(T, T) -> int)
    requires
        is_total_order(elem),
    ensures
        -1 <= lex_order_from(a, b, i, elem) <= 1,
    decreases a.len() - i,
{
    if 0 <= i < a.len() && i < b.len() && elem(a[i], b[i]) == 0 {
        lemma_lex_bounds(a, b, i + 1, elem);
    }
}

pub proof fn lemma_lex_antisym<T>(a: Seq<T>, b: Seq<T>, i: int, elem: spec_fn(T, T) -> int)
    requires
        is_total_order(elem),
    ensures
        lex_order_from(a, b, i, elem) == -lex_order_from(b, a, i, elem),
    decreases a.len() - i,
{
    if 0 <= i < a.len() && i < b.len() {
        assert(elem(a[i], b[i]) == -elem(b[i], a[i]));
        if elem(a[i], b[i]) == 0 {
            lemma_lex_antisym(a, b, i + 1, elem);
        }
    }
}

pub proof fn lemma_lex_zero<T>(a: Seq<T>, b: Seq<T>, i: int, elem: spec_fn(T, T) -> int)
    requires
        is_total_order(elem),
        0 <= i <= a.len(),
        i <= b.len(),
    ensures
        lex_order_from(a, b, i, elem) == 0 <==> a.skip(i) =~= b.skip(i),
    decreases a.len() - i,
{
    if i < a.len() && i < b.len() {
        assert(a.skip(i) =~= seq![a[i]] + a.skip(i + 1));
        assert(b.skip(i) =~= seq![b[i]] + b.skip(i + 1));
        if elem(a[i], b[i]) == 0 {
            lemma_lex_zero(a, b, i + 1, elem);
            if a.skip(i) =~= b.skip(i) {
                assert(a.skip(i + 1) =~= a.skip(i).drop_first());
                assert(b.skip(i + 1) =~= b.skip(i).drop_first());
            }
        } else {
            if a.skip(i) =~= b.skip(i) {
                assert(a.skip(i)[0] == b.skip(i)[0]);
            }
        }
    } else if i < a.len() {
        assert(a.skip(i).len() != b.skip(i).len());
    } else if i < b.len() {
        assert(a.skip(i).len() != b.skip(i).len());
    }
}

pub proof fn lemma_lex_trans<T>(
    a: Seq<T>,
    b: Seq<T>,
    c: Seq<T>,
    i: int,
    elem: spec_fn(T, T) -> int,
)
    requires
        is_total_order(elem),
        0 <= i,
        lex_order_from(a, b, i, elem) <= 0,
        lex_order_from(b, c, i, elem) <= 0,
    ensures
        lex_order_from(a, c, i, elem) <= 0,
    decreases a.len() - i,
{
    if i < a.len() {
        let ab = elem(a[i], b[i]);
        let bc = elem(b[i], c[i]);
        assert(elem(a[i], b[i]) <= 0 && elem(b[i], c[i]) <= 0 ==> elem(a[i], c[i]) <= 0);
        if ab == 0 && bc == 0 {
            lemma_lex_trans(a, b, c, i + 1, elem);
        } else if ab == 0 {
            assert(a[i] == b[i]);
        } else if bc == 0 {
            assert(b[i] == c[i]);
        } else {
            assert(elem(a[i], c[i]) != 0) by {
                if elem(a[i], c[i]) == 0 {
                    assert(a[i] == c[i]);
                    assert(elem(c[i], b[i]) == -elem(b[i], c[i]));
                }
            }
        }
    }
}

pub proof fn lemma_char_elem_order()
    ensures
        is_total_order(char_elem()),
{
    let f = char_elem();
    assert forall|x: char, y: char| #[trigger] f(x, y) == 0 <==> x == y by {
        if !(x < y) && !(x > y) {
            assert(x == y);
        }
    }
}

pub proof fn lemma_comp_elem_order()
    ensures
        is_total_order(comp_elem()),
{
    lemma_char_elem_order();
    let f = comp_elem();
    assert forall|x: Comp, y: Comp| #[trigger] f(x, y) == -f(y, x) by {
        lemma_lex_antisym(x.1, y.1, 0, char_elem());
    }
    assert forall|x: Comp, y: Comp| -1 <= #[trigger] f(x, y) <= 1 by {
        lemma_lex_bounds(x.1, y.1, 0, char_elem());
    }
    assert forall|x: Comp, y: Comp| #[trigger] f(x, y) == 0 <==> x == y by {
        lemma_lex_zero(x.1, y.1, 0, char_elem());
        assert(x.1.skip(0) =~= x.1);
        assert(y.1.skip(0) =~= y.1);
        if kind_rank(x.0) == kind_rank(y.0) {
            assert(x.0 == y.0);
        }
    }
    assert forall|x: Comp, y: Comp, z: Comp|
        #![trigger f(x, y), f(y, z)]
        f(x, y) <= 0 && f(y, z) <= 0 implies f(x, z) <= 0 by {
        if kind_rank(x.0) == kind_rank(y.0) && kind_rank(y.0) == kind_rank(z.0) {
            lemma_lex_trans(x.1, y.1, z.1, 0, char_elem());
        }
    }
}

/// Comparing paths is a total preorder: swapping the arguments negates the result.
pub proof fn lemma_path_order_antisym(a: Seq<char>, b: Seq<char>)
    ensures
        path_order(a, b) == -path_order(b, a),
        -1 <= path_order(a, b) <= 1,
{
    lemma_comp_elem_order();
    lemma_lex_antisym(components(a), components(b), 0, comp_elem());
    lemma_lex_bounds(components(a), components(b), 0, comp_elem());
}

/// Two paths compare equal exactly when they name the same path.
pub proof fn lemma_path_order_zero(a: Seq<char>, b: Seq<char>)
    ensures
        path_order(a, b) == 0 <==> same_path(a, b),
{
    lemma_comp_elem_order();
    lemma_lex_zero(components(a), components(b), 0, comp_elem());
    assert(components(a).skip(0) =~= components(a));
    assert(components(b).skip(0) =~= components(b));
}

/// Comparing paths is transitive.
pub proof fn lemma_path_order_trans(a: Seq<char>, b: Seq<char>, c: Seq<char>)
    requires
        path_order(a, b) <= 0,
        path_order(b, c) <= 0,
    ensures
        path_order(a, c) <= 0,
{
    lemma_comp_elem_order();
    lemma_lex_trans(components(a), components(b), components(c), 0, comp_elem());
}


/// A path component as executable code holds it.
pub struct PathComponent {
    pub kind: ComponentKind,
    pub name: Vec<char>,
}

pub open spec fn comp_view(c: PathComponent) -> Comp {
    (c.kind, c.name@)
}

pub open spec fn comps_view(v: Seq<PathComponent>) -> Seq<Comp> {
    v.map_values(|c: PathComponent| comp_view(c))
}

fn push_segment(done: &mut Vec<PathComponent>, seg: Vec<char>)
    ensures
        comps_view(final(done)@) =~= comps_view(old(done)@) + segment_comps(seg@),
{
    let n = seg.len();
    if n == 0 || (n == 1 && seg[0] == '.') {
        assert(n == 1 ==> seg@ =~= seq!['.']);
    } else if n == 2 && seg[0] == '.' && seg[1] == '.' {
        assert(seg@ =~= seq!['.', '.']);
        done.push(PathComponent { kind: ComponentKind::ParentDir, name: Vec::new() });
    } else {
        assert(!(seg@ =~= seq!['.'])) by {
            if seg@ =~= seq!['.'] {
                assert(seg@.len() == 1);
            }
        }
        assert(!(seg@ =~= seq!['.', '.'])) by {
            if seg@ =~= seq!['.', '.'] {
                assert(seg@.len() == 2 && seg@[0] == '.' && seg@[1] == '.');
            }
        }
        done.push(PathComponent { kind: ComponentKind::Normal, name: seg });
    }
}

/// The components of a path given by its characters.
pub fn split_components(p: &Vec<char>) -> (res: Vec<PathComponent>)
    ensures
        comps_view(res@) == components(p@),
{
    let mut res: Vec<PathComponent> = Vec::new();
    let n = p.len();
    if n > 0 && p[0] == '/' {
        res.push(PathComponent { kind: ComponentKind::RootDir, name: Vec::new() });
    } else if (n == 1 && p[0] == '.') || (n >= 2 && p[0] == '.' && p[1] == '/') {
        assert(n == 1 ==> p@ =~= seq!['.']);
        res.push(PathComponent { kind: ComponentKind::CurDir, name: Vec::new() });
    } else {
        assert(!(p@ =~= seq!['.'])) by {
            if p@ =~= seq!['.'] {
                assert(p@.len() == 1 && p@[0] == '.');
            }
        }
    }
    assert(comps_view(res@) =~= head_comps(p@));
    let mut cur: Vec<char> = Vec::new();
    let mut i: usize = 0;
    assert(p@.take(0) =~= Seq::<char>::empty());
    while i < n
        invariant
            n == p@.len(),
            i <= n,
            comps_view(res@) =~= head_comps(p@) + split_state(p@.take(i as int)).0,
            cur@ == split_state(p@.take(i as int)).1,
        decreases n - i,
    {
        assert(p@.take(i + 1).drop_last() =~= p@.take(i as int));
        assert(p@.take(i + 1).last() == p@[i as int]);
        let c = p[i];
        if c == '/' {
            let mut seg: Vec<char> = Vec::new();
            std::mem::swap(&mut seg, &mut cur);
            push_segment(&mut res, seg);
        } else {
            cur.push(c);
        }
        i = i + 1;
    }
    assert(p@.take(n as int) =~= p@);
    push_segment(&mut res, cur);
    res
}

fn chars_order_exec(a: &Vec<char>, b: &Vec<char>) -> (r: i8)
    ensures
        r == chars_order(a@, b@),
{
    let mut i: usize = 0;
    while i < a.len() && i < b.len()
        invariant
            i <= a.len(),
            i <= b.len(),
            chars_order(a@, b@) == lex_order_from(a@, b@, i as int, char_elem()),
        decreases a.len() - i,
    {
        let x = a[i];
        let y = b[i];
        if x < y {
            return -1;
        } else if x > y {
            return 1;
        }
        i = i + 1;
    }
    if i < a.len() {
        1
    } else if i < b.len() {
        -1
    } else {
        0
    }
}

fn kind_rank_exec(k: ComponentKind) -> (r: u8)
    ensures
        r == kind_rank(k),
{
    match k {
        ComponentKind::RootDir => 0,
        ComponentKind::CurDir => 1,
        ComponentKind::ParentDir => 2,
        ComponentKind::Normal => 3,
    }
}

fn comp_order_exec(a: &PathComponent, b: &PathComponent) -> (r: i8)
    ensures
        r == comp_order(comp_view(*a), comp_view(*b)),
{
    let ra = kind_rank_exec(a.kind);
    let rb = kind_rank_exec(b.kind);
    if ra < rb {
        -1
    } else if ra > rb {
        1
    } else {
        chars_order_exec(&a.name, &b.name)
    }
}

fn comps_order_exec(a: &Vec<PathComponent>, b: &Vec<PathComponent>) -> (r: i8)
    ensures
        r == lex_order_from(comps_view(a@), comps_view(b@), 0, comp_elem()),
{
    let ghost va = comps_view(a@);
    let ghost vb = comps_view(b@);
    let mut i: usize = 0;
    while i < a.len() && i < b.len()
        invariant
            i <= a.len(),
            i <= b.len(),
            va == comps_view(a@),
            vb == comps_view(b@),
            lex_order_from(va, vb, 0, comp_elem()) == lex_order_from(va, vb, i as int, comp_elem()),
        decreases a.len() - i,
    {
        let o = comp_order_exec(&a[i], &b[i]);
        if o != 0 {
            return o;
        }
        i = i + 1;
    }
    if i < a.len() {
        1
    } else if i < b.len() {
        -1
    } else {
        0
    }
}

/// Compares two strings character by character, as `String`'s `Ord` does: -1, 0
/// or 1.
pub fn compare_strings(a: &str, b: &str) -> (r: i8)
    ensures
        r == chars_order(a@, b@),
{
    chars_order_exec(&crate::text::chars_of(a), &crate::text::chars_of(b))
}

/// The character order of strings is a total order: it is -1, 0 or 1, swapping
/// negates it, it is 0 only on equal strings, and it is transitive.
pub proof fn lemma_chars_order(a: Seq<char>, b: Seq<char>, c: Seq<char>)
    ensures
        chars_order(a, b) == -chars_order(b, a),
        -1 <= chars_order(a, b) <= 1,
        chars_order(a, b) == 0 <==> a == b,
        chars_order(a, b) <= 0 && chars_order(b, c) <= 0 ==> chars_order(a, c) <= 0,
{
    lemma_char_elem_order();
    lemma_lex_antisym(a, b, 0, char_elem());
    lemma_lex_bounds(a, b, 0, char_elem());
    lemma_lex_zero(a, b, 0, char_elem());
    assert(a.skip(0) =~= a);
    assert(b.skip(0) =~= b);
    if chars_order(a, b) <= 0 && chars_order(b, c) <= 0 {
        lemma_lex_trans(a, b, c, 0, char_elem());
    }
}

/// Compares two paths component by component: -1, 0 or 1, as `Path`'s `Ord` does
/// on Unix.
pub fn compare_paths(a: &str, b: &str) -> (r: i8)
    ensures
        r == path_order(a@, b@),
{
    let ca = split_components(&crate::text::chars_of(a));
    let cb = split_components(&crate::text::chars_of(b));
    comps_order_exec(&ca, &cb)
}

/// Whether two strings name the same path, as `PathBuf`'s `==` decides on Unix.
pub fn paths_equal(a: &str, b: &str) -> (r: bool)
    ensures
        r == same_path(a@, b@),
{
    proof {
        lemma_path_order_zero(a@, b@);
    }
    compare_paths(a, b) == 0
}


pub open spec fn has_root(p: Seq<char>) -> bool {
    p.len() > 0 && p[0] == '/'
}

pub open spec fn include_cur_dir(p: Seq<char>) -> bool {
    !has_root(p) && (p =~= seq!['.'] || (p.len() >= 2 && p[0] == '.' && p[1] == '/'))
}

/// Where the segments of a path begin: after the root, or after a leading `.`.
pub open spec fn body_start(p: Seq<char>) -> int {
    if has_root(p) || include_cur_dir(p) { 1 } else { 0 }
}

/// Reading back from `end`: where the segment that ends at `end` starts.
pub open spec fn seg_start(p: Seq<char>, lo: int, end: int) -> int
    decreases end - lo,
{
    if end <= lo {
        lo
    } else if p[end - 1] == '/' {
        end
    } else {
        seg_start(p, lo, end - 1)
    }
}

pub proof fn lemma_seg_start_bounds(p: Seq<char>, lo: int, end: int)
    requires
        lo <= end,
    ensures
        lo <= seg_start(p, lo, end) <= end,
    decreases end - lo,
{
    if end > lo && p[end - 1] != '/' {
        lemma_seg_start_bounds(p, lo, end - 1);
    }
}

/// The end left once the segment before `end`, and the separator before it, are removed.
pub open spec fn after_seg(p: Seq<char>, lo: int, end: int) -> int {
    let s = seg_start(p, lo, end);
    if s > lo { s - 1 } else { lo }
}

/// A segment names a component unless it is empty or `.`.
pub open spec fn names_comp(seg: Seq<char>) -> bool {
    seg.len() > 0 && !(seg =~= seq!['.'])
}

/// Removing segments from the back until one that names a component is gone: the
/// end that is left, or `None` when no such segment is left before `lo`.
pub open spec fn drop_last_named(p: Seq<char>, lo: int, end: int) -> Option<int>
    decreases end - lo,
{
    if end <= lo {
        None
    } else {
        proof {
            lemma_seg_start_bounds(p, lo, end);
        }
        if names_comp(p.subrange(seg_start(p, lo, end), end)) {
            Some(after_seg(p, lo, end))
        } else {
            drop_last_named(p, lo, after_seg(p, lo, end))
        }
    }
}

/// Removing trailing segments that name no component: the end that is left.
pub open spec fn trim_unnamed(p: Seq<char>, lo: int, end: int) -> int
    decreases end - lo,
{
    if end <= lo {
        end
    } else {
        proof {
            lemma_seg_start_bounds(p, lo, end);
        }
        if names_comp(p.subrange(seg_start(p, lo, end), end)) {
            end
        } else {
            trim_unnamed(p, lo, after_seg(p, lo, end))
        }
    }
}

/// `Path::parent` on Unix: the path without its last component, or `None` when
/// the path is empty or the root.
pub open spec fn parent_of(p: Seq<char>) -> Option<Seq<char>> {
    let lo = body_start(p);
    match drop_last_named(p, lo, p.len() as int) {
        Some(e) => Some(p.take(trim_unnamed(p, lo, e))),
        None => if include_cur_dir(p) {
            Some(Seq::<char>::empty())
        } else {
            None
        },
    }
}

/// `Path::file_name`: the last component when it is a name.
pub open spec fn file_name_of(p: Seq<char>) -> Option<Seq<char>> {
    let c = components(p);
    if c.len() > 0 && c.last().0 == ComponentKind::Normal {
        Some(c.last().1)
    } else {
        None
    }
}

/// `Path::join` with a relative name: a separator goes between them unless the
/// base is empty or already ends with one.
pub open spec fn joined(base: Seq<char>, name: Seq<char>) -> Seq<char> {
    if base.len() > 0 && base.last() != '/' {
        base.push('/') + name
    } else {
        base + name
    }
}

fn seg_start_exec(p: &Vec<char>, lo: usize, end: usize) -> (s: usize)
    requires
        lo <= end <= p@.len(),
    ensures
        s == seg_start(p@, lo as int, end as int),
        lo <= s <= end,
{
    let mut e = end;
    while e > lo && p[e - 1] != '/'
        invariant
            lo <= e <= end <= p@.len(),
            seg_start(p@, lo as int, end as int) == seg_start(p@, lo as int, e as int),
        decreases e,
    {
        e = e - 1;
    }
    e
}

fn is_named_exec(p: &Vec<char>, s: usize, e: usize) -> (r: bool)
    requires
        s <= e <= p@.len(),
    ensures
        r == names_comp(p@.subrange(s as int, e as int)),
{
    let ghost seg = p@.subrange(s as int, e as int);
    if e == s {
        false
    } else if e - s == 1 && p[s] == '.' {
        assert(seg =~= seq!['.']);
        false
    } else {
        assert(!(seg =~= seq!['.'])) by {
            if seg =~= seq!['.'] {
                assert(seg.len() == 1 && seg[0] == p@[s as int]);
            }
        }
        true
    }
}

/// The parent of a path (`Path::parent` on Unix).
pub fn parent_path(path: &str) -> (r: Option<String>)
    ensures
        match r {
            Some(s) => parent_of(path@) == Some(s@),
            None => parent_of(path@).is_none(),
        },
{
    let p = crate::text::chars_of(path);
    let n = p.len();
    let rooted = n > 0 && p[0] == '/';
    let cur = !rooted && ((n == 1 && p[0] == '.') || (n >= 2 && p[0] == '.' && p[1] == '/'));
    proof {
        if n == 1 && p@[0] == '.' {
            assert(p@ =~= seq!['.']);
        }
        if p@ =~= seq!['.'] {
            assert(p@.len() == 1 && p@[0] == '.');
        }
    }
    assert(cur == include_cur_dir(p@));
    let lo: usize = if rooted || cur { 1 } else { 0 };
    let ghost lo_i = body_start(p@);
    assert(lo == lo_i);
    // drop the last named segment
    let mut end = n;
    let mut found = false;
    while end > lo && !found
        invariant
            lo <= end <= n == p@.len(),
            lo == body_start(p@),
            !found ==> drop_last_named(p@, lo as int, n as int) == drop_last_named(p@, lo as int, end as int),
            found ==> drop_last_named(p@, lo as int, n as int) == Some(end as int),
        decreases end,
    {
        let s = seg_start_exec(&p, lo, end);
        let named = is_named_exec(&p, s, end);
        let next = if s > lo { s - 1 } else { lo };
        proof {
            lemma_seg_start_bounds(p@, lo as int, end as int);
        }
        end = next;
        if named {
            found = true;
        }
    }
    if !found {
        if cur {
            return Some(String::new());
        } else {
            return None;
        }
    }
    // trim trailing segments that name nothing
    let mut e = end;
    let ghost e0 = end;
    loop
        invariant
            lo <= e <= e0 <= n == p@.len(),
            trim_unnamed(p@, lo as int, e0 as int) == trim_unnamed(p@, lo as int, e as int),
        ensures
            lo <= e <= n,
            trim_unnamed(p@, lo as int, e0 as int) == e,
        decreases e,
    {
        if e <= lo {
            break;
        }
        let s = seg_start_exec(&p, lo, e);
        if is_named_exec(&p, s, e) {
            break;
        }
        e = if s > lo { s - 1 } else { lo };
    }
    assert(p@.take(e as int) =~= p@.subrange(0, e as int));
    Some(crate::text::string_from_chars(&p, 0, e))
}

/// The last component of a path when it is a name (`Path::file_name`).
pub fn file_name(path: &str) -> (r: Option<String>)
    ensures
        match r {
            Some(s) => file_name_of(path@) == Some(s@),
            None => file_name_of(path@).is_none(),
        },
{
    let p = crate::text::chars_of(path);
    let comps = split_components(&p);
    let k = comps.len();
    if k == 0 {
        return None;
    }
    let last = &comps[k - 1];
    assert(comps_view(comps@).last() == comp_view(comps@[k - 1]));
    match last.kind {
        ComponentKind::Normal => Some(crate::text::string_from_chars(&last.name, 0, last.name.len())),
        _ => None,
    }
}

/// `base` joined with the relative name `name` (`Path::join`).
pub fn join_path(base: &str, name: &str) -> (r: String)
    ensures
        r@ == joined(base@, name@),
{
    let b = crate::text::chars_of(base);
    let mut r = crate::text::string_of(base);
    if b.len() > 0 && b[b.len() - 1] != '/' {
        crate::text::push_char(&mut r, '/');
    }
    crate::text::append_str(&mut r, name);
    r
}

/// The segment that `seg_start` finds holds no separator.
pub proof fn lemma_seg_no_sep(p: Seq<char>, lo: int, end: int)
    requires
        0 <= lo <= end <= p.len(),
    ensures
        forall|i: int| seg_start(p, lo, end) <= i < end ==> p[i] != '/',
    decreases end - lo,
{
    if end > lo && p[end - 1] != '/' {
        lemma_seg_no_sep(p, lo, end - 1);
    }
}

/// A run of characters without separators that starts at `lo` or just after a
/// separator is the segment that `seg_start` finds.
pub proof fn lemma_seg_run(p: Seq<char>, lo: int, s: int, end: int)
    requires
        lo <= s <= end <= p.len(),
        0 <= lo,
        forall|i: int| s <= i < end ==> p[i] != '/',
        s == lo || p[s - 1] == '/',
    ensures
        seg_start(p, lo, end) == s,
    decreases end - s,
{
    if end > s {
        lemma_seg_run(p, lo, s, end - 1);
    }
}

/// `seg_start` reads only the characters before `end`.
pub proof fn lemma_seg_prefix(a: Seq<char>, b: Seq<char>, lo: int, end: int)
    requires
        0 <= lo,
        end <= a.len(),
        end <= b.len(),
        forall|i: int| 0 <= i < end ==> a[i] == b[i],
    ensures
        seg_start(a, lo, end) == seg_start(b, lo, end),
    decreases end - lo,
{
    if end > lo && a[end - 1] != '/' {
        lemma_seg_prefix(a, b, lo, end - 1);
    }
}

/// `trim_unnamed` reads only the characters before `end`.
pub proof fn lemma_trim_prefix(a: Seq<char>, b: Seq<char>, lo: int, end: int)
    requires
        0 <= lo,
        end <= a.len(),
        end <= b.len(),
        forall|i: int| 0 <= i < end ==> a[i] == b[i],
    ensures
        trim_unnamed(a, lo, end) == trim_unnamed(b, lo, end),
    decreases end - lo,
{
    if end > lo {
        lemma_seg_prefix(a, b, lo, end);
        lemma_seg_start_bounds(a, lo, end);
        let s = seg_start(a, lo, end);
        assert(a.subrange(s, end) =~= b.subrange(s, end));
        if !names_comp(a.subrange(s, end)) {
            lemma_trim_prefix(a, b, lo, after_seg(a, lo, end));
        }
    }
}

/// What `trim_unnamed` leaves: an end no lower than `lo` whose last segment names
/// a component, unless it is `lo` itself.
pub proof fn lemma_trim_result(p: Seq<char>, lo: int, end: int)
    requires
        0 <= lo <= end <= p.len(),
    ensures
        lo <= trim_unnamed(p, lo, end) <= end,
        trim_unnamed(p, lo, end) > lo ==> names_comp(
            p.subrange(seg_start(p, lo, trim_unnamed(p, lo, end)), trim_unnamed(p, lo, end)),
        ),
    decreases end - lo,
{
    if end > lo {
        lemma_seg_start_bounds(p, lo, end);
        if !names_comp(p.subrange(seg_start(p, lo, end), end)) {
            lemma_trim_result(p, lo, after_seg(p, lo, end));
        }
    }
}

/// `drop_last_named` leaves an end between `lo` and the end it started from.
pub proof fn lemma_drop_result(p: Seq<char>, lo: int, end: int)
    requires
        0 <= lo <= end <= p.len(),
    ensures
        drop_last_named(p, lo, end) matches Some(e) ==> lo <= e < end,
    decreases end - lo,
{
    if end > lo {
        lemma_seg_start_bounds(p, lo, end);
        if !names_comp(p.subrange(seg_start(p, lo, end), end)) {
            lemma_drop_result(p, lo, after_seg(p, lo, end));
        }
    }
}

/// A name without separators joined to the parent of a path has that parent as
/// its own parent: the joined path lies in the same directory as the path.
pub proof fn lemma_joined_parent(p: Seq<char>, name: Seq<char>)
    requires
        parent_of(p) is Some,
        names_comp(name),
        forall|i: int| 0 <= i < name.len() ==> name[i] != '/',
    ensures
        parent_of(joined(parent_of(p)->0, name)) == parent_of(p),
{
    let lo = body_start(p);
    let q = parent_of(p)->0;
    let t = joined(q, name);
    lemma_drop_result(p, lo, p.len() as int);
    match drop_last_named(p, lo, p.len() as int) {
        Some(e) => {
            lemma_trim_result(p, lo, e);
            let k = trim_unnamed(p, lo, e);
            assert(q == p.take(k));
            if k > lo {
                let s = seg_start(p, lo, k);
                lemma_seg_start_bounds(p, lo, k);
                lemma_seg_no_sep(p, lo, k);
                assert(p.subrange(s, k).len() > 0);
                assert(p[k - 1] != '/');
                assert(q.last() != '/');
                assert(t == q.push('/') + name);
                // The joined path starts as the parent does.
                assert(has_root(t) == has_root(p));
                assert(body_start(t) == lo) by {
                    if k == 1 && p[0] == '.' {
                        assert(p.subrange(seg_start(p, lo, 1), 1) =~= seq!['.']);
                    }
                }
                lemma_seg_run(t, lo, k + 1, t.len() as int);
                assert(t.subrange(k + 1, t.len() as int) =~= name);
                assert(drop_last_named(t, lo, t.len() as int) == Some(k));
                lemma_trim_prefix(t, p, lo, k);
                lemma_seg_prefix(t, p, lo, k);
                assert(t.subrange(s, k) =~= p.subrange(s, k));
                assert(trim_unnamed(p, lo, k) == k);
                assert(trim_unnamed(t, lo, k) == k);
                assert(t.take(k) =~= q);
            } else if lo == 1 && has_root(p) {
                assert(q =~= seq!['/']);
                assert(t == q + name);
                assert(body_start(t) == 1);
                lemma_seg_run(t, 1, 1, t.len() as int);
                assert(t.subrange(1, t.len() as int) =~= name);
                assert(drop_last_named(t, 1, t.len() as int) == Some(1int));
                assert(t.take(1) =~= q);
            } else if lo == 1 {
                assert(include_cur_dir(p));
                assert(q =~= seq!['.']);
                assert(t == q.push('/') + name);
                assert(include_cur_dir(t));
                lemma_seg_run(t, 1, 2, t.len() as int);
                assert(t.subrange(2, t.len() as int) =~= name);
                assert(drop_last_named(t, 1, t.len() as int) == Some(1int));
                assert(t.take(1) =~= q);
            } else {
                assert(q =~= Seq::<char>::empty());
                assert(t == name);
                assert(body_start(t) == 0);
                lemma_seg_run(t, 0, 0, t.len() as int);
                assert(t.subrange(0, t.len() as int) =~= name);
                assert(drop_last_named(t, 0, t.len() as int) == Some(0int));
                assert(t.take(0) =~= q);
            }
        },
        None => {
            assert(q =~= Seq::<char>::empty());
            assert(t == name);
            assert(body_start(t) == 0);
            lemma_seg_run(t, 0, 0, t.len() as int);
            assert(t.subrange(0, t.len() as int) =~= name);
            assert(drop_last_named(t, 0, t.len() as int) == Some(0int));
            assert(t.take(0) =~= q);
        },
    }
}

/// Reading characters without separators only extends the segment being read.
pub proof fn lemma_split_tail(a: Seq<char>, t: Seq<char>)
    requires
        forall|i: int| 0 <= i < t.len() ==> t[i] != '/',
    ensures
        split_state(a + t).0 == split_state(a).0,
        split_state(a + t).1 == split_state(a).1 + t,
    decreases t.len(),
{
    if t.len() == 0 {
        assert(a + t =~= a);
        assert(split_state(a).1 + t =~= split_state(a).1);
    } else {
        let t1 = t.drop_last();
        lemma_split_tail(a, t1);
        assert((a + t).drop_last() =~= a + t1);
        assert((a + t).last() == t.last());
        assert(split_state(a).1 + t =~= (split_state(a).1 + t1).push(t.last()));
    }
}

/// A name without separators, other than `.` and `..`, joined to any base is the
/// file name of the joined path.
pub proof fn lemma_joined_file_name(base: Seq<char>, name: Seq<char>)
    requires
        names_comp(name),
        !(name =~= seq!['.', '.']),
        forall|i: int| 0 <= i < name.len() ==> name[i] != '/',
    ensures
        file_name_of(joined(base, name)) == Some(name),
{
    let a = if base.len() > 0 && base.last() != '/' { base.push('/') } else { base };
    assert(joined(base, name) == a + name);
    assert(split_state(a).1 == Seq::<char>::empty()) by {
        if a.len() > 0 {
            assert(a.last() == '/');
        }
    }
    lemma_split_tail(a, name);
    assert(split_state(a + name).1 =~= name);
    let c = components(a + name);
    assert(segment_comps(name) == seq![(ComponentKind::Normal, name)]);
    assert(c.last() == (ComponentKind::Normal, name));
}

} // verus!
