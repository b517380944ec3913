//! Insertion of a `use` item into the imports at the top of a file, merging
//! it into an existing import where the granularity allows.
use vstd::prelude::*;
use vstd::string::*;
use crate::make::str_eq;

verus! {

/// How finely imports are split.
#[derive(PartialEq, Eq, Structural, Clone, Copy, Debug)]
pub enum ImportGranularity {
    /// One `use` item per crate: items of a crate are merged.
    Crate,
    /// One `use` item per module: items of a module are merged.
    Module,
    /// One `use` item per imported item: nothing is merged.
    Item,
}

/// Spaces, tabs and newlines.
pub open spec fn is_space(c: char) -> bool {
    c == ' ' || c == '\t' || c == '\n' || c == '\r'
}

pub open spec fn all_space(s: Seq<char>) -> bool {
    forall|i: int| 0 <= i < s.len() ==> is_space(#[trigger] s[i])
}

/// `text` with `mid` in place of the characters `p..q`.
pub open spec fn spliced(text: Seq<char>, p: int, q: int, mid: Seq<char>) -> Seq<char> {
    text.subrange(0, p) + mid + text.subrange(q, text.len() as int)
}

/// The import line for `path`.
pub open spec fn import_line(path: Seq<char>) -> Seq<char> {
    "use "@ + path + ";"@
}

fn is_space_exec(c: char) -> (r: bool)
    ensures
        r == is_space(c),
{
    c == ' ' || c == '\t' || c == '\n' || c == '\r'
}

/// Whether `s` has `p` at index `i`.
fn at(s: &str, n: usize, i: usize, p: &str) -> (r: bool)
    requires
        n == s@.len(),
        i <= n,
    ensures
        r ==> i + p@.len() <= n,
{
    let m = p.unicode_len();
    if m > n - i {
        return false;
    }
    let mut k: usize = 0;
    while k < m
        invariant
            m == p@.len(),
            n == s@.len(),
            i + m <= n,
            k <= m,
        decreases m - k,
    {
        if s.get_char(i + k) != p.get_char(k) {
            return false;
        }
        k = k + 1;
    }
    true
}

/// The index of the first `c` at or after `i`, or `n`.
fn find_char(s: &str, n: usize, i: usize, c: char) -> (r: usize)
    requires
        n == s@.len(),
        i <= n,
    ensures
        i <= r <= n,
        r < n ==> s@[r as int] == c,
{
    let mut k = i;
    while k < n
        invariant
            n == s@.len(),
            i <= k <= n,
        decreases n - k,
    {
        if s.get_char(k) == c {
            return k;
        }
        k = k + 1;
    }
    n
}

/// The index just after the bracket that closes the one at `i`, or `n`.
fn skip_bracketed(s: &str, n: usize, i: usize) -> (r: usize)
    requires
        n == s@.len(),
        i < n,
    ensures
        i < r <= n,
{
    let mut depth: usize = 0;
    let mut k = i;
    while k < n
        invariant
            n == s@.len(),
            i <= k <= n,
            depth <= k - i,
        decreases n - k,
    {
        let c = s.get_char(k);
        if c == '[' {
            depth = depth + 1;
        } else if c == ']' {
            if depth <= 1 {
                return k + 1;
            }
            depth = depth - 1;
        }
        k = k + 1;
    }
    n
}

/// The index of the first non-space character at or after `i`, or `n`.
fn skip_space(s: &str, n: usize, i: usize) -> (r: usize)
    requires
        n == s@.len(),
        i <= n,
    ensures
        i <= r <= n,
{
    let mut k = i;
    while k < n && is_space_exec(s.get_char(k))
        invariant
            n == s@.len(),
            i <= k <= n,
        decreases n - k,
    {
        k = k + 1;
    }
    k
}

/// An import found in the file.
struct UseItem {
    /// Where the item starts, its attributes included.
    start: usize,
    /// Just after its `;`.
    end: usize,
    /// The use tree: between `use ` and `;`.
    tree_start: usize,
    tree_end: usize,
    /// Neither a visibility nor attributes.
    plain: bool,
}

spec fn item_ok(u: UseItem, n: nat) -> bool {
    u.start <= u.tree_start <= u.tree_end < u.end <= n
}

/// A use item at `i`: `[pub[(..)]] use <tree>;`.
fn parse_use(s: &str, n: usize, i: usize, attr_start: Option<usize>) -> (r: Option<UseItem>)
    requires
        n == s@.len(),
        i <= n,
        attr_start matches Some(a) ==> a <= i,
    ensures
        r matches Some(u) ==> item_ok(u, n as nat) && u.end > i,
{
    let mut k = i;
    let mut vis = false;
    if at(s, n, k, "pub") {
        proof {
            reveal_strlit("pub");
        }
        vis = true;
        k = k + 3;
        if k < n && s.get_char(k) == '(' {
            let close = find_char(s, n, k, ')');
            if close == n {
                return None;
            }
            k = close + 1;
        }
        k = skip_space(s, n, k);
    }
    if !at(s, n, k, "use") {
        return None;
    }
    proof {
        reveal_strlit("use");
    }
    k = k + 3;
    if k >= n || !is_space_exec(s.get_char(k)) {
        return None;
    }
    let tree_start = skip_space(s, n, k);
    let semi = find_char(s, n, tree_start, ';');
    if semi == n {
        return None;
    }
    let start = match attr_start {
        Some(a) => a,
        None => i,
    };
    Some(UseItem { start, end: semi + 1, tree_start, tree_end: semi, plain: !vis && attr_start.is_none() })
}

/// The imports at the top of a file, and where its leading inner
/// attributes and inner doc comments end when no import precedes them.
struct Scan {
    uses: Vec<UseItem>,
    last_inner_end: Option<usize>,
}

fn scan(s: &str, n: usize) -> (r: Scan)
    requires
        n == s@.len(),
    ensures
        forall|k: int| 0 <= k < r.uses@.len() ==> item_ok(#[trigger] r.uses@[k], n as nat),
        r.last_inner_end matches Some(e) ==> e <= n,
{
    let mut uses: Vec<UseItem> = Vec::new();
    let mut last_inner_end: Option<usize> = None;
    let mut leading = true;
    let mut attr_start: Option<usize> = None;
    let mut i: usize = 0;
    while i < n
        invariant
            n == s@.len(),
            i <= n,
            forall|k: int| 0 <= k < uses@.len() ==> item_ok(#[trigger] uses@[k], n as nat),
            last_inner_end matches Some(e) ==> e <= n,
            attr_start matches Some(a) ==> a <= i,
        decreases n - i,
    {
        proof {
            reveal_strlit("//");
            reveal_strlit("/*");
            reveal_strlit("#![");
            reveal_strlit("#[");
        }
        let c = s.get_char(i);
        if is_space_exec(c) {
            i = skip_space(s, n, i + 1);
        } else if at(s, n, i, "//") {
            let j = find_char(s, n, i, '\n');
            if leading && at(s, n, i, "//!") {
                last_inner_end = Some(j);
            } else {
                leading = false;
            }
            i = if j > i { j } else { i + 1 };
        } else if at(s, n, i, "/*") {
            let inner = at(s, n, i, "/*!");
            let mut j = i + 2;
            while j < n
                invariant
                    n == s@.len(),
                    i < j <= n,
                decreases n - j,
            {
                proof {
                    reveal_strlit("*/");
                }
                if at(s, n, j, "*/") {
                    j = j + 2;
                    break;
                }
                j = j + 1;
            }
            if leading && inner {
                last_inner_end = Some(j);
            } else {
                leading = false;
            }
            i = j;
        } else if at(s, n, i, "#![") {
            let j = skip_bracketed(s, n, i + 2);
            if leading {
                last_inner_end = Some(j);
            }
            i = j;
        } else if at(s, n, i, "#[") {
            let j = skip_bracketed(s, n, i + 1);
            if attr_start.is_none() {
                attr_start = Some(i);
            }
            leading = false;
            i = j;
        } else {
            leading = false;
            match parse_use(s, n, i, attr_start) {
                Some(u) => {
                    i = u.end;
                    uses.push(u);
                    attr_start = None;
                },
                None => {
                    break;
                },
            }
        }
    }
    Scan { uses, last_inner_end }
}

// ---------------------------------------------------------------------------
// Use trees
// ---------------------------------------------------------------------------

/// The shape of a use tree: its leading path, whether a `{..}` list follows
/// it, and, when that list holds plain names only, those names.
struct Tree {
    segments: Vec<String>,
    has_list: bool,
    leaves: Option<Vec<String>>,
}

/// `t` without spaces at either end.
fn trim(t: &str) -> (r: String) {
    let n = t.unicode_len();
    let mut a: usize = 0;
    while a < n && is_space_exec(t.get_char(a))
        invariant
            n == t@.len(),
            a <= n,
        decreases n - a,
    {
        a = a + 1;
    }
    let mut b: usize = n;
    while b > a && is_space_exec(t.get_char(b - 1))
        invariant
            n == t@.len(),
            a <= b <= n,
        decreases b,
    {
        b = b - 1;
    }
    String::from_str(t.substring_char(a, b))
}

/// `t` split at each `sep`, each part trimmed.
fn split(t: &str, sep: &str) -> (r: Vec<String>)
    requires
        sep@.len() > 0,
{
    let n = t.unicode_len();
    let m = sep.unicode_len();
    let mut parts: Vec<String> = Vec::new();
    let mut from: usize = 0;
    let mut k: usize = 0;
    while k < n
        invariant
            n == t@.len(),
            m == sep@.len(),
            m > 0,
            from <= k <= n,
        decreases n - k,
    {
        if at(t, n, k, sep) {
            parts.push(trim(t.substring_char(from, k)));
            k = k + m;
            from = k;
        } else {
            k = k + 1;
        }
    }
    parts.push(trim(t.substring_char(from, n)));
    parts
}

fn contains_char(t: &str, c: char) -> (r: bool) {
    let n = t.unicode_len();
    find_char(t, n, 0, c) < n
}

fn tree_of(text: &str) -> (r: Tree) {
    proof {
        reveal_strlit("::");
        reveal_strlit(",");
    }
    let n = text.unicode_len();
    let brace = find_char(text, n, 0, '{');
    let star = find_char(text, n, 0, '*');
    let cut = if brace < star { brace } else { star };
    let mut head_end = cut;
    // Drop the `::` before a list or a glob.
    if cut < n && cut >= 2 && text.get_char(cut - 1) == ':' && text.get_char(cut - 2) == ':' {
        head_end = cut - 2;
    }
    let head = trim(text.substring_char(0, head_end));
    let segments = if head.unicode_len() == 0 {
        Vec::new()
    } else {
        split(head.as_str(), "::")
    };
    if brace < n && brace < star {
        let close = find_char(text, n, brace + 1, '}');
        let inner = text.substring_char(brace + 1, close);
        let flat = !contains_char(inner, '{') && !contains_char(inner, ':') && !contains_char(inner, '*');
        let leaves = if flat {
            Some(split(inner, ","))
        } else {
            None
        };
        Tree { segments, has_list: true, leaves }
    } else {
        Tree { segments, has_list: false, leaves: None }
    }
}

// ---------------------------------------------------------------------------
// Ordering and grouping
// ---------------------------------------------------------------------------

/// `self`, `super` or `crate`.
pub open spec fn is_path_kw(s: Seq<char>) -> bool {
    s == "self"@ || s == "super"@ || s == "crate"@
}

/// Lexicographic order of two texts by character: `-1`, `0` or `1`.
pub open spec fn text_order(a: Seq<char>, b: Seq<char>) -> int
    decreases a.len(),
{
    if a.len() == 0 {
        if b.len() == 0 { 0 } else { -1 }
    } else if b.len() == 0 {
        1
    } else if a[0] < b[0] {
        -1
    } else if a[0] > b[0] {
        1
    } else {
        text_order(a.drop_first(), b.drop_first())
    }
}

/// Order of path segments: `self`, `super` and `crate` first, then names.
pub open spec fn seg_order(a: Seq<char>, b: Seq<char>) -> int {
    if is_path_kw(a) && is_path_kw(b) {
        0
    } else if is_path_kw(a) {
        -1
    } else if is_path_kw(b) {
        1
    } else {
        text_order(a, b)
    }
}

/// Order of use-tree paths: segment by segment; where one path is a prefix
/// of the other, a path followed by a list comes after one that is not, and
/// otherwise the shorter comes first.
pub open spec fn path_order(a: Seq<Seq<char>>, a_list: bool, b: Seq<Seq<char>>, b_list: bool) -> int
    decreases a.len(),
{
    if a.len() > 0 && b.len() > 0 && seg_order(a[0], b[0]) != 0 {
        seg_order(a[0], b[0])
    } else if a.len() > 0 && b.len() > 0 {
        path_order(a.drop_first(), a_list, b.drop_first(), b_list)
    } else if a_list && b_list {
        0
    } else if a_list {
        1
    } else if b_list {
        -1
    } else if a.len() < b.len() {
        -1
    } else if a.len() > b.len() {
        1
    } else {
        0
    }
}

/// The segments of a path, as texts.
pub open spec fn segs(v: Seq<String>) -> Seq<Seq<char>> {
    v.map_values(|x: String| x@)
}

/// The group of a path by its first segment: the standard library (`0`),
/// other crates (`1`), this crate (`2`), this module (`3`), the parent
/// module (`4`).
pub open spec fn group_spec(p: Seq<Seq<char>>) -> u8 {
    if p.len() == 0 {
        1
    } else if p[0] == "std"@ || p[0] == "core"@ || p[0] == "alloc"@ {
        0
    } else if p[0] == "crate"@ {
        2
    } else if p[0] == "self"@ {
        3
    } else if p[0] == "super"@ {
        4
    } else {
        1
    }
}

fn is_path_keyword(s: &str) -> (r: bool)
    ensures
        r == is_path_kw(s@),
{
    str_eq(s, "self") || str_eq(s, "super") || str_eq(s, "crate")
}

/// Lexicographic order of two texts: `-1`, `0` or `1`.
fn text_cmp(a: &str, b: &str) -> (r: i8)
    ensures
        r == text_order(a@, b@),
{
    let n = a.unicode_len();
    let m = b.unicode_len();
    let mut k: usize = 0;
    assert(a@.skip(0) =~= a@);
    assert(b@.skip(0) =~= b@);
    while k < n && k < m
        invariant
            n == a@.len(),
            m == b@.len(),
            k <= n,
            k <= m,
            text_order(a@, b@) == text_order(a@.skip(k as int), b@.skip(k as int)),
        decreases n - k,
    {
        let x = a.get_char(k);
        let y = b.get_char(k);
        assert(a@.skip(k as int)[0] == x);
        assert(b@.skip(k as int)[0] == y);
        if x < y {
            return -1;
        }
        if x > y {
            return 1;
        }
        assert(a@.skip(k as int).drop_first() =~= a@.skip(k + 1));
        assert(b@.skip(k as int).drop_first() =~= b@.skip(k + 1));
        k = k + 1;
    }
    assert(a@.skip(k as int).len() == n - k);
    assert(b@.skip(k as int).len() == m - k);
    if n < m {
        -1
    } else if n > m {
        1
    } else {
        0
    }
}

/// Order of path segments.
fn segment_cmp(a: &str, b: &str) -> (r: i8)
    ensures
        r == seg_order(a@, b@),
{
    let ka = is_path_keyword(a);
    let kb = is_path_keyword(b);
    if ka && kb {
        0
    } else if ka {
        -1
    } else if kb {
        1
    } else {
        text_cmp(a, b)
    }
}

/// Order of use-tree paths.
fn path_cmp(a: &Vec<String>, a_list: bool, b: &Vec<String>, b_list: bool) -> (r: i8)
    ensures
        r == path_order(segs(a@), a_list, segs(b@), b_list),
{
    let mut k: usize = 0;
    assert(segs(a@).skip(0) =~= segs(a@));
    assert(segs(b@).skip(0) =~= segs(b@));
    while k < a.len() && k < b.len()
        invariant
            k <= a@.len(),
            k <= b@.len(),
            path_order(segs(a@), a_list, segs(b@), b_list) == path_order(
                segs(a@).skip(k as int),
                a_list,
                segs(b@).skip(k as int),
                b_list,
            ),
        decreases a@.len() - k,
    {
        let c = segment_cmp(a[k].as_str(), b[k].as_str());
        assert(segs(a@).skip(k as int)[0] == a@[k as int]@);
        assert(segs(b@).skip(k as int)[0] == b@[k as int]@);
        if c != 0 {
            return c;
        }
        assert(segs(a@).skip(k as int).drop_first() =~= segs(a@).skip(k + 1));
        assert(segs(b@).skip(k as int).drop_first() =~= segs(b@).skip(k + 1));
        k = k + 1;
    }
    assert(segs(a@).skip(k as int).len() == a@.len() - k);
    assert(segs(b@).skip(k as int).len() == b@.len() - k);
    if a_list && b_list {
        0
    } else if a_list {
        1
    } else if b_list {
        -1
    } else if a.len() < b.len() {
        -1
    } else if a.len() > b.len() {
        1
    } else {
        0
    }
}

/// The group of a path by its first segment.
fn group_of(segments: &Vec<String>) -> (r: u8)
    ensures
        r == group_spec(segs(segments@)),
        r <= 4,
{
    if segments.len() == 0 {
        return 1;
    }
    let first = segments[0].as_str();
    assert(segs(segments@)[0] == first@);
    if str_eq(first, "std") || str_eq(first, "core") || str_eq(first, "alloc") {
        0
    } else if str_eq(first, "crate") {
        2
    } else if str_eq(first, "self") {
        3
    } else if str_eq(first, "super") {
        4
    } else {
        1
    }
}

// ---------------------------------------------------------------------------
// Placement
// ---------------------------------------------------------------------------

/// An import of the file: its leading path, and whether a list follows it.
pub struct ImportInfo {
    pub path: Vec<String>,
    pub has_list: bool,
}

/// Where a new import goes among the file's imports.
#[derive(PartialEq, Eq, Structural, Clone, Copy, Debug)]
pub enum Placement {
    /// Just before import `k`, in its group.
    Before(usize),
    /// Just after import `k`, the last of its group's first block.
    After(usize),
    /// Before import `k`, the first of a later group, as a group of its own.
    BeforeGroup(usize),
    /// After all imports, as a group of its own.
    AfterAll,
    /// The file has no import.
    Top,
}

pub open spec fn imports_view(v: Seq<ImportInfo>) -> Seq<(Seq<Seq<char>>, bool)> {
    v.map_values(|i: ImportInfo| (segs(i.path@), i.has_list))
}

/// The first import from `i` on in group `g`, or the length.
pub open spec fn first_in_group(l: Seq<(Seq<Seq<char>>, bool)>, g: u8, i: int) -> int
    decreases l.len() - i,
{
    if i < 0 || i >= l.len() {
        l.len() as int
    } else if group_spec(l[i].0) == g {
        i
    } else {
        first_in_group(l, g, i + 1)
    }
}

/// The first import from `i` on in a group after `g`, or the length.
pub open spec fn first_after_group(l: Seq<(Seq<Seq<char>>, bool)>, g: u8, i: int) -> int
    decreases l.len() - i,
{
    if i < 0 || i >= l.len() {
        l.len() as int
    } else if group_spec(l[i].0) > g {
        i
    } else {
        first_after_group(l, g, i + 1)
    }
}

/// Within the block of group `g` from `k` on: before the first import not
/// ordered before `new`, else after the block's last import.
pub open spec fn place_in_block(l: Seq<(Seq<Seq<char>>, bool)>, g: u8, new: Seq<Seq<char>>, k: int) -> Placement
    decreases l.len() - k,
{
    if k < 0 || k >= l.len() || group_spec(l[k].0) != g {
        Placement::After((k - 1) as usize)
    } else if path_order(new, false, l[k].0, l[k].1) <= 0 {
        Placement::Before(k as usize)
    } else {
        place_in_block(l, g, new, k + 1)
    }
}

/// Where the import of `new` goes among imports `l`: in the first block of
/// its group, at its place in path order; without such a block, before the
/// first import of a later group, else after all imports.
pub open spec fn placement_spec(l: Seq<(Seq<Seq<char>>, bool)>, new: Seq<Seq<char>>) -> Placement {
    let g = group_spec(new);
    let s = first_in_group(l, g, 0);
    if s < l.len() {
        place_in_block(l, g, new, s)
    } else if first_after_group(l, g, 0) < l.len() {
        Placement::BeforeGroup(first_after_group(l, g, 0) as usize)
    } else if l.len() > 0 {
        Placement::AfterAll
    } else {
        Placement::Top
    }
}

/// Where the import of `new` goes among the file's imports `imports`.
pub fn placement(imports: &Vec<ImportInfo>, new: &Vec<String>) -> (r: Placement)
    ensures
        r == placement_spec(imports_view(imports@), segs(new@)),
        r matches Placement::Before(k) ==> k < imports@.len(),
        r matches Placement::After(k) ==> k < imports@.len(),
        r matches Placement::BeforeGroup(k) ==> k < imports@.len(),
{
    let ghost l = imports_view(imports@);
    let ghost nv = segs(new@);
    let g = group_of(new);
    let count = imports.len();
    let mut k: usize = 0;
    while k < count && group_of(&imports[k].path) != g
        invariant
            count == imports@.len(),
            l == imports_view(imports@),
            k <= count,
            first_in_group(l, g, 0) == first_in_group(l, g, k as int),
        decreases count - k,
    {
        assert(l[k as int] == (segs(imports@[k as int].path@), imports@[k as int].has_list));
        k = k + 1;
    }
    if k < count {
        assert(l[k as int] == (segs(imports@[k as int].path@), imports@[k as int].has_list));
        let ghost s = k;
        while k < count
            invariant
                count == imports@.len(),
                l == imports_view(imports@),
                s <= k <= count,
                s < count,
                group_spec(l[s as int].0) == g,
                nv == segs(new@),
                g == group_spec(nv),
                first_in_group(l, g, 0) == s,
                place_in_block(l, g, nv, s as int) == place_in_block(l, g, nv, k as int),
                k > s ==> group_spec(l[k - 1].0) == g,
            ensures
                k > s,
                s <= k <= count,
                k < count ==> group_spec(l[k as int].0) != g,
                place_in_block(l, g, nv, s as int) == place_in_block(l, g, nv, k as int),
            decreases count - k,
        {
            let item = &imports[k];
            let gk = group_of(&item.path);
            assert(imports_view(imports@)[k as int] == (segs(item.path@), item.has_list));
            assert(gk == group_spec(l[k as int].0));
            if gk != g {
                assert(k as int != s as int);
                break;
            }
            let c = path_cmp(new, false, &item.path, item.has_list);
            assert(c == path_order(nv, false, l[k as int].0, l[k as int].1));
            if c <= 0 {
                return Placement::Before(k);
            }
            k = k + 1;
        }
        assert(k > s);
        if k < count {
            assert(l[k as int] == (segs(imports@[k as int].path@), imports@[k as int].has_list));
        }
        assert(place_in_block(l, g, nv, k as int) == Placement::After((k - 1) as usize));
        return Placement::After(k - 1);
    }
    let mut j: usize = 0;
    while j < count && group_of(&imports[j].path) <= g
        invariant
            count == imports@.len(),
            l == imports_view(imports@),
            j <= count,
            first_after_group(l, g, 0) == first_after_group(l, g, j as int),
        decreases count - j,
    {
        assert(l[j as int] == (segs(imports@[j as int].path@), imports@[j as int].has_list));
        j = j + 1;
    }
    if j < count {
        assert(l[j as int] == (segs(imports@[j as int].path@), imports@[j as int].has_list));
        Placement::BeforeGroup(j)
    } else if count > 0 {
        Placement::AfterAll
    } else {
        Placement::Top
    }
}

// ---------------------------------------------------------------------------
// Merging
// ---------------------------------------------------------------------------

fn same_segments(a: &Vec<String>, a_len: usize, b: &Vec<String>, b_len: usize) -> (r: bool)
    requires
        a_len <= a@.len(),
        b_len <= b@.len(),
{
    if a_len != b_len {
        return false;
    }
    let mut k: usize = 0;
    while k < a_len
        invariant
            a_len <= a@.len(),
            a_len == b_len,
            b_len <= b@.len(),
            k <= a_len,
        decreases a_len - k,
    {
        if !str_eq(a[k].as_str(), b[k].as_str()) {
            return false;
        }
        k = k + 1;
    }
    true
}

fn copy_strings(v: &Vec<String>, len: usize) -> (r: Vec<String>)
    requires
        len <= v@.len(),
{
    let mut out: Vec<String> = Vec::new();
    let mut k: usize = 0;
    while k < len
        invariant
            len <= v@.len(),
            k <= len,
        decreases len - k,
    {
        out.push(v[k].clone());
        k = k + 1;
    }
    out
}

/// `names` with `name` added when missing, in path-segment order.
fn sorted_with(names: &Vec<String>, name: &str) -> (r: Vec<String>) {
    let mut out: Vec<String> = Vec::new();
    let mut present = false;
    let mut k: usize = 0;
    while k < names.len()
        invariant
            k <= names@.len(),
        decreases names@.len() - k,
    {
        if str_eq(names[k].as_str(), name) {
            present = true;
        }
        k = k + 1;
    }
    let mut all: Vec<String> = Vec::new();
    let mut k: usize = 0;
    while k < names.len()
        invariant
            k <= names@.len(),
        decreases names@.len() - k,
    {
        all.push(names[k].clone());
        k = k + 1;
    }
    if !present {
        all.push(String::from_str(name));
    }
    // Insertion into `out`, keeping it ordered.
    let mut k: usize = 0;
    while k < all.len()
        invariant
            k <= all@.len(),
        decreases all@.len() - k,
    {
        let mut j: usize = 0;
        while j < out.len() && segment_cmp(out[j].as_str(), all[k].as_str()) <= 0
            invariant
                j <= out@.len(),
                k < all@.len(),
            decreases out@.len() - j,
        {
            j = j + 1;
        }
        out.insert(j, all[k].clone());
        k = k + 1;
    }
    out
}

fn render_tree(prefix: &Vec<String>, leaves: &Vec<String>) -> (r: String) {
    let mut s = String::from_str("");
    let mut k: usize = 0;
    while k < prefix.len()
        invariant
            k <= prefix@.len(),
        decreases prefix@.len() - k,
    {
        s.append(prefix[k].as_str());
        s.append("::");
        k = k + 1;
    }
    s.append("{");
    let mut k: usize = 0;
    while k < leaves.len()
        invariant
            k <= leaves@.len(),
        decreases leaves@.len() - k,
    {
        if k > 0 {
            s.append(", ");
        }
        s.append(leaves[k].as_str());
        k = k + 1;
    }
    s.append("}");
    s
}

/// The use tree of `existing` with `new` merged into it, when the two share
/// the module (or `new` lies directly in the module that `existing` names).
fn try_merge(existing: &Tree, new: &Vec<String>) -> (r: Option<String>) {
    let n = new.len();
    if n == 0 || existing.segments.len() == 0 {
        return None;
    }
    let last = new[n - 1].as_str();
    if !existing.has_list {
        let e = &existing.segments;
        let el = e.len();
        // The same path: nothing to add.
        if same_segments(e, el, new, n) {
            let mut s = String::from_str("");
            let mut k: usize = 0;
            while k < el
                invariant
                    el == e@.len(),
                    k <= el,
                decreases el - k,
            {
                if k > 0 {
                    s.append("::");
                }
                s.append(e[k].as_str());
                k = k + 1;
            }
            return Some(s);
        }
        // `existing` names the module of `new`.
        if same_segments(e, el, new, n - 1) {
            let mut leaves: Vec<String> = Vec::new();
            leaves.push(String::from_str("self"));
            return Some(render_tree(e, &sorted_with(&leaves, last)));
        }
        // Both in one module.
        if el >= 1 && same_segments(e, el - 1, new, n - 1) {
            let prefix = copy_strings(e, el - 1);
            let mut leaves: Vec<String> = Vec::new();
            leaves.push(e[el - 1].clone());
            return Some(render_tree(&prefix, &sorted_with(&leaves, last)));
        }
        return None;
    }
    match &existing.leaves {
        Some(leaves) => {
            let el = existing.segments.len();
            if same_segments(&existing.segments, el, new, n - 1) {
                Some(render_tree(&existing.segments, &sorted_with(leaves, last)))
            } else {
                None
            }
        },
        None => None,
    }
}

// ---------------------------------------------------------------------------
// Nested use trees
// ---------------------------------------------------------------------------

/// A use tree: a path, then nothing, a glob, or a list of trees.
struct UseTreeNode {
    path: Vec<String>,
    kind: TreeKind,
}

enum TreeKind {
    Plain,
    Glob,
    List(Vec<UseTreeNode>),
}

fn is_path_char(c: char) -> (r: bool) {
    !(c == ':' || c == ',' || c == '{' || c == '}' || c == '*' || c == ' ' || c == '\t' || c == '\n' || c == '\r')
}

/// The tree that starts at `i`, and the index just after it.
fn parse_tree(s: &str, n: usize, i: usize) -> (r: (UseTreeNode, usize))
    requires
        n == s@.len(),
        i <= n,
    ensures
        i <= r.1 <= n,
    decreases n - i, 0nat,
{
    let mut k = skip_space(s, n, i);
    let mut path: Vec<String> = Vec::new();
    loop
        invariant
            n == s@.len(),
            i <= k <= n,
        decreases n - k,
    {
        let start = k;
        while k < n && is_path_char(s.get_char(k))
            invariant
                n == s@.len(),
                start <= k <= n,
            decreases n - k,
        {
            k = k + 1;
        }
        if k > start {
            path.push(String::from_str(s.substring_char(start, k)));
        }
        k = skip_space(s, n, k);
        if n - k > 1 && s.get_char(k) == ':' && s.get_char(k + 1) == ':' {
            k = skip_space(s, n, k + 2);
            if k == start {
                break;
            }
        } else {
            break;
        }
    }
    if k < n && s.get_char(k) == '*' {
        return (UseTreeNode { path, kind: TreeKind::Glob }, k + 1);
    }
    if k < n && s.get_char(k) == '{' {
        let (items, end) = parse_list(s, n, k + 1);
        return (UseTreeNode { path, kind: TreeKind::List(items) }, end);
    }
    (UseTreeNode { path, kind: TreeKind::Plain }, k)
}

/// The trees of a list from `i` up to its `}`, and the index after it.
fn parse_list(s: &str, n: usize, i: usize) -> (r: (Vec<UseTreeNode>, usize))
    requires
        n == s@.len(),
        i <= n,
    ensures
        i <= r.1 <= n,
    decreases n - i, 1nat,
{
    let mut items: Vec<UseTreeNode> = Vec::new();
    let mut k = i;
    while k < n
        invariant
            n == s@.len(),
            i <= k <= n,
        decreases n - k,
    {
        k = skip_space(s, n, k);
        if k >= n {
            break;
        }
        if s.get_char(k) == '}' {
            return (items, k + 1);
        }
        if s.get_char(k) == ',' {
            k = k + 1;
        } else {
            let (t, end) = parse_tree(s, n, k);
            items.push(t);
            if end == k {
                k = k + 1;
            } else {
                k = end;
            }
        }
    }
    (items, k)
}

fn render_path(path: &Vec<String>, out: &mut String) {
    let mut k: usize = 0;
    while k < path.len()
        invariant
            k <= path@.len(),
        decreases path@.len() - k,
    {
        if k > 0 {
            out.append("::");
        }
        out.append(path[k].as_str());
        k = k + 1;
    }
}

fn render(t: &UseTreeNode, out: &mut String)
    decreases *t,
{
    render_path(&t.path, out);
    match &t.kind {
        TreeKind::Plain => {},
        TreeKind::Glob => {
            if t.path.len() > 0 {
                out.append("::");
            }
            out.append("*");
        },
        TreeKind::List(items) => {
            if t.path.len() > 0 {
                out.append("::");
            }
            out.append("{");
            let mut k: usize = 0;
            while k < items.len()
                invariant
                    t.kind == TreeKind::List(*items),
                    k <= items@.len(),
                decreases items@.len() - k,
            {
                proof {
                    assert(decreases_to!(*t => t.kind));
                    assert(decreases_to!(t.kind => t.kind->List_0));
                    assert(decreases_to!(*items => items@));
                    assert(decreases_to!(items@ => items@[k as int]));
                }
                if k > 0 {
                    out.append(", ");
                }
                render(&items[k], out);
                k = k + 1;
            }
            out.append("}");
        },
    }
}

fn copy_path(v: &Vec<String>, from: usize) -> (r: Vec<String>)
    requires
        from <= v@.len(),
    ensures
        r@.len() == v@.len() - from,
{
    let mut out: Vec<String> = Vec::new();
    let mut k: usize = from;
    while k < v.len()
        invariant
            from <= k <= v@.len(),
            out@.len() == k - from,
        decreases v@.len() - k,
    {
        out.push(v[k].clone());
        k = k + 1;
    }
    out
}

fn common_prefix(a: &Vec<String>, b: &Vec<String>) -> (r: usize)
    ensures
        r <= a@.len(),
        r <= b@.len(),
{
    let mut k: usize = 0;
    while k < a.len() && k < b.len() && str_eq(a[k].as_str(), b[k].as_str())
        invariant
            k <= a@.len(),
            k <= b@.len(),
        decreases a@.len() - k,
    {
        k = k + 1;
    }
    k
}

fn is_list(t: &UseTreeNode) -> (r: bool) {
    match &t.kind {
        TreeKind::List(_) => true,
        _ => false,
    }
}

/// `items` ordered by path, each in its place among the ones before it.
fn sort_trees(items: Vec<UseTreeNode>) -> (r: Vec<UseTreeNode>) {
    let mut rest = items;
    let mut out: Vec<UseTreeNode> = Vec::new();
    while rest.len() > 0
        invariant
            true,
        decreases rest@.len(),
    {
        let t = rest.remove(0);
        let mut j: usize = 0;
        while j < out.len() && path_cmp(&out[j].path, is_list(&out[j]), &t.path, is_list(&t)) <= 0
            invariant
                j <= out@.len(),
            decreases out@.len() - j,
        {
            j = j + 1;
        }
        out.insert(j, t);
    }
    out
}

/// `t` with the path `rhs` merged into it, when both start alike; `depth`
/// bounds how deep the trees nest.
fn merge_into(t: UseTreeNode, rhs: Vec<String>, depth: usize) -> (r: Option<UseTreeNode>)
    decreases depth,
{
    let c = common_prefix(&t.path, &rhs);
    if c == 0 || depth == 0 {
        return None;
    }
    let same = c == t.path.len() && c == rhs.len();
    match t.kind {
        TreeKind::Plain => {
            if same {
                return Some(UseTreeNode { path: t.path, kind: TreeKind::Plain });
            }
        },
        _ => {},
    }
    let prefix = copy_path(&t.path, 0);
    let mut prefix_cut: Vec<String> = Vec::new();
    let mut k: usize = 0;
    while k < c
        invariant
            c <= prefix@.len(),
            k <= c,
        decreases c - k,
    {
        prefix_cut.push(prefix[k].clone());
        k = k + 1;
    }
    let lhs_rest = copy_path(&t.path, c);
    let mut items: Vec<UseTreeNode> = Vec::new();
    let mut self_path: Vec<String> = Vec::new();
    self_path.push(String::from_str("self"));
    match t.kind {
        TreeKind::Plain => {
            if lhs_rest.len() == 0 {
                items.push(UseTreeNode { path: self_path, kind: TreeKind::Plain });
            } else {
                items.push(UseTreeNode { path: lhs_rest, kind: TreeKind::Plain });
            }
        },
        TreeKind::Glob => {
            if lhs_rest.len() == 0 {
                items.push(UseTreeNode { path: self_path, kind: TreeKind::Glob });
            } else {
                items.push(UseTreeNode { path: lhs_rest, kind: TreeKind::Glob });
            }
        },
        TreeKind::List(list) => {
            if lhs_rest.len() == 0 {
                items = list;
            } else {
                items.push(UseTreeNode { path: lhs_rest, kind: TreeKind::List(list) });
            }
        },
    }
    let mut rhs_rest = copy_path(&rhs, c);
    if rhs_rest.len() == 0 {
        rhs_rest.push(String::from_str("self"));
    }
    let mut sorted = sort_trees(items);
    // The item that starts as the rest of `rhs` does.
    let mut j: usize = 0;
    let mut found: Option<usize> = None;
    while j < sorted.len()
        invariant
            j <= sorted@.len(),
            rhs_rest@.len() > 0,
            found matches Some(f) ==> f < sorted@.len(),
        decreases sorted@.len() - j,
    {
        if sorted[j].path.len() > 0 && str_eq(sorted[j].path[0].as_str(), rhs_rest[0].as_str()) {
            found = Some(j);
            break;
        }
        j = j + 1;
    }
    match found {
        Some(f) => {
            let item = sorted.remove(f);
            match merge_into(item, rhs_rest, depth - 1) {
                Some(m) => sorted.insert(f, m),
                None => return None,
            }
        },
        None => {
            let new = UseTreeNode { path: rhs_rest, kind: TreeKind::Plain };
            let mut p: usize = 0;
            while p < sorted.len() && path_cmp(&sorted[p].path, is_list(&sorted[p]), &new.path, false) <= 0
                invariant
                    p <= sorted@.len(),
                decreases sorted@.len() - p,
            {
                p = p + 1;
            }
            sorted.insert(p, new);
        },
    }
    Some(UseTreeNode { path: prefix_cut, kind: TreeKind::List(sorted) })
}

/// The use tree `text` with the path `new` merged into it, when both start
/// with the same segment.
fn merge_nested(text: &str, new: &Vec<String>) -> (r: Option<String>) {
    let n = text.unicode_len();
    let (tree, _) = parse_tree(text, n, 0);
    let rhs = copy_path(new, 0);
    match merge_into(tree, rhs, n) {
        Some(m) => {
            let mut out = String::from_str("");
            render(&m, &mut out);
            Some(out)
        },
        None => None,
    }
}

// ---------------------------------------------------------------------------
// Insertion
// ---------------------------------------------------------------------------

/// Where the run of spaces and tabs that ends at `p` starts.
pub open spec fn indent_start(s: Seq<char>, p: int) -> int
    decreases p,
{
    if p <= 0 || p > s.len() {
        if p <= 0 { 0 } else { p }
    } else if s[p - 1] == ' ' || s[p - 1] == '\t' {
        indent_start(s, p - 1)
    } else {
        p
    }
}

/// The spaces and tabs just before index `p`: the indentation of an item
/// that starts its line at `p`.
pub open spec fn indent_at(s: Seq<char>, p: int) -> Seq<char> {
    s.subrange(indent_start(s, p), p)
}

/// The spaces and tabs that start the line of index `p`.
fn indent_before(s: &str, n: usize, p: usize) -> (r: String)
    requires
        n == s@.len(),
        p <= n,
    ensures
        all_space(r@),
        r@ == indent_at(s@, p as int),
{
    let mut k = p;
    while k > 0 && (s.get_char(k - 1) == ' ' || s.get_char(k - 1) == '\t')
        invariant
            n == s@.len(),
            k <= p <= n,
            forall|j: int| k <= j < p ==> is_space(#[trigger] s@[j]),
            indent_start(s@, p as int) == indent_start(s@, k as int),
        decreases k,
    {
        k = k - 1;
    }
    assert(indent_start(s@, k as int) == k);
    let r = String::from_str(s.substring_char(k, p));
    assert forall|j: int| 0 <= j < r@.len() implies is_space(#[trigger] r@[j]) by {
        assert(r@[j] == s@[k + j]);
    }
    r
}

/// `a` followed by `b`, both space.
fn spaces(a: &str, b: &str) -> (r: String)
    requires
        all_space(a@),
        all_space(b@),
    ensures
        all_space(r@),
        r@ == a@ + b@,
{
    let mut s = String::from_str(a);
    s.append(b);
    assert forall|j: int| 0 <= j < s@.len() implies is_space(#[trigger] s@[j]) by {
        if j < a@.len() {
            assert(s@[j] == a@[j]);
        } else {
            assert(s@[j] == b@[j - a@.len()]);
        }
    }
    s
}

fn newline() -> (r: String)
    ensures
        all_space(r@),
        r@ == "\n"@,
{
    proof {
        reveal_strlit("\n");
    }
    String::from_str("\n")
}

/// `text` with `mid` in place of `p..q`.
fn splice(text: &str, n: usize, p: usize, q: usize, mid: &str) -> (r: String)
    requires
        n == text@.len(),
        p <= q <= n,
    ensures
        r@ == spliced(text@, p as int, q as int, mid@),
{
    let mut s = String::from_str(text.substring_char(0, p));
    s.append(mid);
    s.append(text.substring_char(q, n));
    s
}

/// `text` with the import line of `path` inserted at `p`, between the
/// spaces `before` and `after`.
fn insert_line(text: &str, n: usize, p: usize, before: &str, path: &str, after: &str) -> (r: String)
    requires
        n == text@.len(),
        p <= n,
        all_space(before@),
        all_space(after@),
    ensures
        r@ == spliced(text@, p as int, p as int, before@ + import_line(path@) + after@),
        exists|p: int, q: int, mid: Seq<char>| 0 <= p <= q <= text@.len() && r@ == spliced(text@, p, q, mid),
        exists|p: int, a: Seq<char>, b: Seq<char>|
            0 <= p <= text@.len() && all_space(a) && all_space(b) && r@ == spliced(
                text@,
                p,
                p,
                a + import_line(path@) + b,
            ),
{
    let mut mid = String::from_str(before);
    mid.append("use ");
    mid.append(path);
    mid.append(";");
    mid.append(after);
    let r = splice(text, n, p, p, mid.as_str());
    assert(mid@ =~= before@ + import_line(path@) + after@);
    r
}

fn no_space() -> (r: String)
    ensures
        all_space(r@),
        r@ == Seq::<char>::empty(),
{
    proof {
        reveal_strlit("");
    }
    String::from_str("")
}

/// The imports at the top of a file: where each starts and ends, what
/// each imports, and where the leading inner attributes and doc comments
/// end.
pub struct FileImports {
    pub spans: Vec<(usize, usize)>,
    pub infos: Vec<ImportInfo>,
    pub last_inner_end: Option<usize>,
}

impl FileImports {
    pub open spec fn wf(&self, n: nat) -> bool {
        &&& self.spans@.len() == self.infos@.len()
        &&& forall|k: int| 0 <= k < self.spans@.len() ==> (#[trigger] self.spans@[k]).0 <= self.spans@[k].1 <= n
        &&& self.last_inner_end matches Some(e) ==> e <= n
    }
}

/// The text after the import `line` is placed as `pl` says among imports
/// spanning `spans`: before an import, with a newline and that import's
/// indentation after it; after one, with a newline and its indentation
/// before it; as a group of its own, with a blank line in between; or, in a
/// file without imports, after its leading inner items or at its top.
pub open spec fn import_edit(
    text: Seq<char>,
    spans: Seq<(usize, usize)>,
    inner: Option<usize>,
    pl: Placement,
    line: Seq<char>,
) -> Seq<char> {
    match pl {
        Placement::Before(k) => {
            let p = spans[k as int].0 as int;
            spliced(text, p, p, line + "\n"@ + indent_at(text, p))
        },
        Placement::After(k) => {
            let q = spans[k as int].1 as int;
            spliced(text, q, q, "\n"@ + indent_at(text, spans[k as int].0 as int) + line)
        },
        Placement::BeforeGroup(k) => {
            let p = spans[k as int].0 as int;
            spliced(text, p, p, line + "\n\n"@ + indent_at(text, p))
        },
        Placement::AfterAll => {
            let q = spans.last().1 as int;
            spliced(text, q, q, "\n\n"@ + indent_at(text, spans.last().0 as int) + line)
        },
        Placement::Top => match inner {
            Some(e) => spliced(text, e as int, e as int, "\n\n"@ + line),
            None => spliced(text, 0, 0, line + "\n\n"@),
        },
    }
}

/// `text` with the import line of `path` (whose segments are `new_path`)
/// inserted at the place that `placement` gives among `file`'s imports.
pub fn insert_import(text: &str, path: &str, new_path: &Vec<String>, file: &FileImports) -> (r: String)
    requires
        file.wf(text@.len()),
    ensures
        r@ == import_edit(
            text@,
            file.spans@,
            file.last_inner_end,
            placement_spec(imports_view(file.infos@), segs(new_path@)),
            import_line(path@),
        ),
        exists|p: int, q: int, mid: Seq<char>| 0 <= p <= q <= text@.len() && r@ == spliced(text@, p, q, mid),
        exists|p: int, a: Seq<char>, b: Seq<char>|
            0 <= p <= text@.len() && all_space(a) && all_space(b) && r@ == spliced(
                text@,
                p,
                p,
                a + import_line(path@) + b,
            ),
{
    proof {
        reveal_strlit("\n");
        reveal_strlit("\n\n");
    }
    let n = text.unicode_len();
    let count = file.spans.len();
    let ghost line = import_line(path@);
    match placement(&file.infos, new_path) {
        Placement::Before(k) => {
            let (start, _) = file.spans[k];
            let indent = indent_before(text, n, start);
            let after = spaces(newline().as_str(), indent.as_str());
            let none = no_space();
            let r = insert_line(text, n, start, none.as_str(), path, after.as_str());
            assert(none@ + line + after@ =~= line + "\n"@ + indent_at(text@, start as int));
            r
        },
        Placement::After(k) => {
            let (start, end) = file.spans[k];
            let indent = indent_before(text, n, start);
            let before = spaces(newline().as_str(), indent.as_str());
            let none = no_space();
            let r = insert_line(text, n, end, before.as_str(), path, none.as_str());
            assert(before@ + line + none@ =~= "\n"@ + indent_at(text@, start as int) + line);
            r
        },
        Placement::BeforeGroup(k) => {
            let (start, _) = file.spans[k];
            let indent = indent_before(text, n, start);
            let blank = spaces(newline().as_str(), newline().as_str());
            let after = spaces(blank.as_str(), indent.as_str());
            let none = no_space();
            let r = insert_line(text, n, start, none.as_str(), path, after.as_str());
            assert(none@ + line + after@ =~= line + "\n\n"@ + indent_at(text@, start as int));
            r
        },
        Placement::AfterAll => {
            let (start, end) = file.spans[count - 1];
            let indent = indent_before(text, n, start);
            let blank = spaces(newline().as_str(), newline().as_str());
            let before = spaces(blank.as_str(), indent.as_str());
            let none = no_space();
            let r = insert_line(text, n, end, before.as_str(), path, none.as_str());
            assert(before@ + line + none@ =~= "\n\n"@ + indent_at(text@, start as int) + line);
            r
        },
        Placement::Top => {
            let blank = spaces(newline().as_str(), newline().as_str());
            let none = no_space();
            match file.last_inner_end {
                Some(e) => {
                    let r = insert_line(text, n, e, blank.as_str(), path, none.as_str());
                    assert(blank@ + line + none@ =~= "\n\n"@ + line);
                    r
                },
                None => {
                    let r = insert_line(text, n, 0, none.as_str(), path, blank.as_str());
                    assert(none@ + line + blank@ =~= line + "\n\n"@);
                    r
                },
            }
        },
    }
}

/// `text` with an import of `path` (written `a::b::c`) added to the imports
/// at its top: merged into the first import that the granularity allows
/// (for `Crate` and `Module`), else inserted as an item of its own at its
/// place among the imports of its group, or after the file's leading inner
/// attributes and doc comments when it has no imports.
///
/// A use tree is merged only where both share the module, or where the
/// existing import names the module of `path`; lists holding paths are left
/// as they are.
pub fn insert_use(text: &str, path: &str, granularity: ImportGranularity) -> (r: String)
    ensures
        exists|p: int, q: int, mid: Seq<char>|
            0 <= p <= q <= text@.len() && r@ == spliced(text@, p, q, mid),
        granularity == ImportGranularity::Item ==> exists|p: int, a: Seq<char>, b: Seq<char>|
            0 <= p <= text@.len() && all_space(a) && all_space(b) && r@ == spliced(
                text@,
                p,
                p,
                a + import_line(path@) + b,
            ),
{
    proof {
        reveal_strlit("::");
    }
    let n = text.unicode_len();
    let sc = scan(text, n);
    let new_path = split(path, "::");
    if granularity != ImportGranularity::Item {
        let mut k: usize = 0;
        while k < sc.uses.len()
            invariant
                n == text@.len(),
                granularity != ImportGranularity::Item,
                k <= sc.uses@.len(),
                forall|j: int| 0 <= j < sc.uses@.len() ==> item_ok(#[trigger] sc.uses@[j], n as nat),
            decreases sc.uses@.len() - k,
        {
            let u = &sc.uses[k];
            if u.plain {
                let tree_text = text.substring_char(u.tree_start, u.tree_end);
                let merged = if granularity == ImportGranularity::Crate {
                    merge_nested(tree_text, &new_path)
                } else {
                    try_merge(&tree_of(tree_text), &new_path)
                };
                match merged {
                    Some(m) => {
                        return splice(text, n, u.tree_start, u.tree_end, m.as_str());
                    },
                    None => {},
                }
            }
            k = k + 1;
        }
    }
    let count = sc.uses.len();
    let mut infos: Vec<ImportInfo> = Vec::new();
    let mut spans: Vec<(usize, usize)> = Vec::new();
    let mut k: usize = 0;
    while k < count
        invariant
            n == text@.len(),
            count == sc.uses@.len(),
            k <= count,
            infos@.len() == k,
            spans@.len() == k,
            forall|j: int| 0 <= j < k ==> (#[trigger] spans@[j]).0 <= spans@[j].1 <= n,
            forall|j: int| 0 <= j < sc.uses@.len() ==> item_ok(#[trigger] sc.uses@[j], n as nat),
        decreases count - k,
    {
        let u = &sc.uses[k];
        let tree = tree_of(text.substring_char(u.tree_start, u.tree_end));
        infos.push(ImportInfo { path: tree.segments, has_list: tree.has_list });
        spans.push((u.start, u.end));
        k = k + 1;
    }
    let file = FileImports { spans, infos, last_inner_end: sc.last_inner_end };
    insert_import(text, path, &new_path, &file)
}

} // verus!
