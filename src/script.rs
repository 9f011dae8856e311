//! Script patches: naming rewrites of script source, and merging compiled
//! script code and symbol bindings into a movie.
use vstd::prelude::*;
use crate::config::{ActionScriptInsertMode, SymbolBinding};
use crate::model::{Movie, NamedId, Tag};
use vstd::utf8::encode_utf8;
use crate::text::{chars_of, find, find_chars, replace_all, replace_chars, slice_chars, string_of, trim_chars, trimmed, lemma_find_from_bounds};

verus! {

pub open spec fn package_keyword() -> Seq<char> {
    seq!['p', 'a', 'c', 'k', 'a', 'g', 'e', ' ']
}

pub open spec fn class_keyword() -> Seq<char> {
    seq!['c', 'l', 'a', 's', 's', ' ']
}

pub open spec fn extends_keyword() -> Seq<char> {
    seq!['e', 'x', 't', 'e', 'n', 'd', 's']
}

pub open spec fn implements_keyword() -> Seq<char> {
    seq!['i', 'm', 'p', 'l', 'e', 'm', 'e', 'n', 't', 's']
}

pub open spec fn brace() -> Seq<char> {
    seq!['{']
}

/// The text from the first occurrence of `keyword` up to the first `{`
/// after it, trimmed.
pub open spec fn declaration(s: Seq<char>, keyword: Seq<char>) -> Option<Seq<char>> {
    match find(s, keyword) {
        None => None,
        Some(start) => match find(s.subrange(start, s.len() as int), brace()) {
            None => None,
            Some(end) => Some(trimmed(s.subrange(start, start + end))),
        },
    }
}

/// The package declaration of a script: from `package ` up to the first
/// `{` after it, trimmed.
pub open spec fn package_declaration(s: Seq<char>) -> Option<Seq<char>> {
    declaration(s, package_keyword())
}

/// The earlier of two optional positions.
pub open spec fn earlier(a: Option<int>, b: Option<int>) -> Option<int> {
    match (a, b) {
        (Some(x), Some(y)) => Some(if x <= y { x } else { y }),
        (Some(x), None) => Some(x),
        (None, y) => y,
    }
}

/// The class declaration of a script: from `class ` up to the first `{`
/// after it, cut before whichever of `extends` and `implements` comes
/// first, trimmed.
pub open spec fn class_declaration(s: Seq<char>) -> Option<Seq<char>> {
    match declaration(s, class_keyword()) {
        None => None,
        Some(d) => match earlier(find(d, extends_keyword()), find(d, implements_keyword())) {
            Some(k) => Some(trimmed(d.subrange(0, k))),
            None => Some(d),
        },
    }
}

fn keyword(lit: &str) -> (r: Vec<char>)
    ensures
        r@ == lit@,
{
    chars_of(lit)
}

fn find_declaration(s: &Vec<char>, kw: &Vec<char>) -> (r: Option<Vec<char>>)
    ensures
        r matches Some(d) ==> declaration(s@, kw@) == Some(d@),
        r is None ==> declaration(s@, kw@) is None,
{
    proof {
        reveal_strlit("{");
    }
    let open = keyword("{");
    assert(open@ =~= brace());
    match find_chars(s, kw, 0) {
        None => None,
        Some(start) => {
            proof {
                lemma_find_from_bounds(s@, kw@, 0);
            }
            let tail = slice_chars(s, start, s.len());
            match find_chars(&tail, &open, 0) {
                None => None,
                Some(end) => {
                    proof {
                        lemma_find_from_bounds(tail@, open@, 0);
                    }
                    let d = slice_chars(s, start, start + end);
                    Some(trim_chars(&d))
                },
            }
        },
    }
}

/// Extracts a script's package declaration: from `package ` up to the
/// first `{` after it, trimmed.
pub fn extract_package_declaration(source: &str) -> (r: Option<String>)
    ensures
        r matches Some(d) ==> package_declaration(source@) == Some(d@),
        r is None ==> package_declaration(source@) is None,
{
    proof {
        reveal_strlit("package ");
    }
    let kw = keyword("package ");
    assert(kw@ =~= package_keyword());
    let s = chars_of(source);
    match find_declaration(&s, &kw) {
        Some(d) => Some(string_of(&d)),
        None => None,
    }
}

/// Extracts a script's class declaration: from `class ` up to the first
/// `{` after it, cut before `extends` or else before `implements`, trimmed.
pub fn extract_class_declaration(source: &str) -> (r: Option<String>)
    ensures
        r matches Some(d) ==> class_declaration(source@) == Some(d@),
        r is None ==> class_declaration(source@) is None,
{
    proof {
        reveal_strlit("class ");
        reveal_strlit("extends");
        reveal_strlit("implements");
    }
    let kw = keyword("class ");
    assert(kw@ =~= class_keyword());
    let ext = keyword("extends");
    assert(ext@ =~= extends_keyword());
    let imp = keyword("implements");
    assert(imp@ =~= implements_keyword());
    let s = chars_of(source);
    match find_declaration(&s, &kw) {
        None => None,
        Some(d) => {
            let e = find_chars(&d, &ext, 0);
            let i = find_chars(&d, &imp, 0);
            proof {
                lemma_find_from_bounds(d@, ext@, 0);
                lemma_find_from_bounds(d@, imp@, 0);
            }
            let cut = match (e, i) {
                (Some(x), Some(y)) => Some(if x <= y { x } else { y }),
                (Some(x), None) => Some(x),
                (None, y) => y,
            };
            match cut {
                Some(k) => {
                    let head = slice_chars(&d, 0, k);
                    Some(string_of(&trim_chars(&head)))
                },
                None => Some(string_of(&d)),
            }
        },
    }
}

/// `s` under package `pkg`: an existing package declaration is replaced
/// (every occurrence of it), otherwise the whole text is wrapped in one.
pub open spec fn with_package(s: Seq<char>, pkg: Seq<char>) -> Seq<char> {
    if find(s, package_keyword()) is Some {
        let decl = match package_declaration(s) {
            Some(d) => d,
            None => package_keyword(),
        };
        replace_all(s, decl, package_keyword() + pkg + seq![' '])
    } else {
        package_keyword() + pkg + seq![' ', '{', '\n'] + s + seq!['\n', '}']
    }
}

/// `s` with its class renamed to `cls` (every occurrence of the class
/// declaration is replaced); `s` itself when it declares no class.
pub open spec fn with_class(s: Seq<char>, cls: Seq<char>) -> Seq<char> {
    if find(s, class_keyword()) is Some {
        let decl = match class_declaration(s) {
            Some(d) => d,
            None => class_keyword(),
        };
        replace_all(s, decl, class_keyword() + cls + seq![' '])
    } else {
        s
    }
}

/// A script's source after a patch's naming: the package first, then, in
/// replace mode, the class.
pub open spec fn prepared_source(
    s: Seq<char>,
    mode: ActionScriptInsertMode,
    class_name: Option<Seq<char>>,
    package_name: Option<Seq<char>>,
) -> Seq<char> {
    let a = match package_name {
        Some(p) => with_package(s, p),
        None => s,
    };
    match (mode, class_name) {
        (ActionScriptInsertMode::Replace, Some(c)) => with_class(a, c),
        _ => a,
    }
}

pub open spec fn name_view(n: Option<String>) -> Option<Seq<char>> {
    match n {
        Some(s) => Some(s@),
        None => None,
    }
}

fn joined(a: &Vec<char>, b: &Vec<char>) -> (r: Vec<char>)
    ensures
        r@ == a@ + b@,
{
    let mut r = slice_chars(a, 0, a.len());
    let mut i: usize = 0;
    proof {
        assert(a@.subrange(0, a@.len() as int) =~= a@);
    }
    while i < b.len()
        invariant
            0 <= i <= b@.len(),
            r@ == a@ + b@.subrange(0, i as int),
        decreases b.len() - i,
    {
        r.push(b[i]);
        i += 1;
        assert(r@ =~= a@ + b@.subrange(0, i as int));
    }
    assert(b@.subrange(0, b@.len() as int) =~= b@);
    r
}

fn place_in_package(s: &Vec<char>, pkg: &Vec<char>) -> (r: Vec<char>)
    ensures
        r@ == with_package(s@, pkg@),
{
    proof {
        reveal_strlit("package ");
        reveal_strlit(" ");
        reveal_strlit(" {\n");
        reveal_strlit("\n}");
    }
    let kw = keyword("package ");
    assert(kw@ =~= package_keyword());
    let space = keyword(" ");
    let head = joined(&joined(&kw, pkg), &space);
    assert(head@ =~= package_keyword() + pkg@ + seq![' ']);
    if find_chars(s, &kw, 0).is_some() {
        let decl = match find_declaration(s, &kw) {
            Some(d) => d,
            None => kw,
        };
        replace_chars(s, &decl, &head)
    } else {
        let open = keyword(" {\n");
        let close = keyword("\n}");
        let r = joined(&joined(&joined(&joined(&kw, pkg), &open), s), &close);
        assert(r@ =~= package_keyword() + pkg@ + seq![' ', '{', '\n'] + s@ + seq!['\n', '}']);
        r
    }
}

fn rename_class(s: &Vec<char>, cls: &Vec<char>) -> (r: Vec<char>)
    ensures
        r@ == with_class(s@, cls@),
{
    proof {
        reveal_strlit("class ");
        reveal_strlit(" ");
    }
    let kw = keyword("class ");
    assert(kw@ =~= class_keyword());
    let space = keyword(" ");
    let head = joined(&joined(&kw, cls), &space);
    assert(head@ =~= class_keyword() + cls@ + seq![' ']);
    if find_chars(s, &kw, 0).is_some() {
        let source = string_of(s);
        let decl = match extract_class_declaration(source.as_str()) {
            Some(d) => chars_of(d.as_str()),
            None => kw,
        };
        replace_chars(s, &decl, &head)
    } else {
        slice_chars(s, 0, s.len())
    }
}

/// Rewrites a script's source for a patch: puts it in the patch's package
/// and, in replace mode, gives its class the patch's class name.
pub fn prepare_script_source(
    source: &str,
    mode: ActionScriptInsertMode,
    class_name: &Option<String>,
    package_name: &Option<String>,
) -> (r: String)
    ensures
        r@ == prepared_source(source@, mode, name_view(*class_name), name_view(*package_name)),
{
    let s = chars_of(source);
    let a = match package_name {
        Some(p) => place_in_package(&s, &chars_of(p.as_str())),
        None => s,
    };
    let b = match (mode, class_name) {
        (ActionScriptInsertMode::Replace, Some(c)) => rename_class(&a, &chars_of(c.as_str())),
        _ => a,
    };
    string_of(&b)
}

/// Whether `needle` occurs in `hay` as a contiguous run.
pub open spec fn contains_bytes(hay: Seq<u8>, needle: Seq<u8>) -> bool {
    exists|i: int| 0 <= i && i + needle.len() <= hay.len() && #[trigger] hay.subrange(i, i + needle.len()) == needle
}

fn bytes_at(hay: &[u8], needle: &[u8], i: usize) -> (r: bool)
    requires
        i + needle@.len() <= hay@.len(),
    ensures
        r == (hay@.subrange(i as int, i + needle@.len()) == needle@),
{
    let m = needle.len();
    let n = hay.len();
    let mut j: usize = 0;
    while j < m
        invariant
            0 <= j <= m,
            m == needle@.len(),
            n == hay@.len(),
            i + needle@.len() <= hay@.len(),
            hay@.subrange(i as int, i + j) =~= needle@.subrange(0, j as int),
        decreases m - j,
    {
        if hay[i + j] != needle[j] {
            assert(hay@.subrange(i as int, i + needle@.len())[j as int] != needle@[j as int]);
            return false;
        }
        j += 1;
        assert(hay@.subrange(i as int, i + j) =~= needle@.subrange(0, j as int));
    }
    assert(needle@.subrange(0, m as int) =~= needle@);
    true
}

/// Whether the UTF-8 bytes of `class_name` occur in compiled script code.
/// An empty name occurs everywhere.
pub fn contains_class_name(abc_data: &[u8], class_name: &str) -> (r: bool)
    ensures
        r == contains_bytes(abc_data@, encode_utf8(class_name@)),
{
    let needle = class_name.as_bytes();
    let n = abc_data.len();
    let m = needle.len();
    if m > n {
        assert forall|i: int| 0 <= i && i + needle@.len() <= abc_data@.len() implies
            #[trigger] abc_data@.subrange(i, i + needle@.len()) != needle@ by {}
        return false;
    }
    let mut i: usize = 0;
    while i <= n - m
        invariant
            n == abc_data@.len(),
            m == needle@.len(),
            m <= n,
            needle@ == encode_utf8(class_name@),
            forall|k: int| 0 <= k < i ==> #[trigger] abc_data@.subrange(k, k + m) != needle@,
        decreases n - m + 1 - i,
    {
        if bytes_at(abc_data, needle, i) {
            return true;
        }
        if m == 0 {
            assert(abc_data@.subrange(i as int, i as int) =~= needle@);
        }
        i += 1;
    }
    assert forall|k: int| 0 <= k && k + needle@.len() <= abc_data@.len() implies
        #[trigger] abc_data@.subrange(k, k + needle@.len()) != needle@ by {
        assert(k < i);
    }
    false
}

/// Whether a tag is a script tag that a replacement may take: any script
/// tag without a class name, else one whose code holds the name's bytes.
pub open spec fn replaceable(t: Tag, needle: Option<Seq<u8>>) -> bool {
    match t {
        Tag::DoAbc { data, .. } => match needle {
            None => true,
            Some(n) => contains_bytes(data@, n),
        },
        _ => false,
    }
}

/// The index of the first tag that a replacement may take.
pub open spec fn first_replaceable(tags: Seq<Tag>, needle: Option<Seq<u8>>) -> Option<int>
    decreases tags.len(),
{
    if tags.len() == 0 {
        None
    } else {
        match first_replaceable(tags.drop_last(), needle) {
            Some(i) => Some(i),
            None => if replaceable(tags.last(), needle) { Some(tags.len() - 1) } else { None },
        }
    }
}

pub open spec fn needle_of(class_name: Option<String>) -> Option<Seq<u8>> {
    match class_name {
        Some(c) => Some(encode_utf8(c@)),
        None => None,
    }
}

proof fn lemma_first_replaceable_extends(tags: Seq<Tag>, needle: Option<Seq<u8>>, n: int, i: int)
    requires
        0 <= i < n <= tags.len(),
        first_replaceable(tags.subrange(0, n), needle) == Some(i),
    ensures
        first_replaceable(tags, needle) == Some(i),
    decreases tags.len() - n,
{
    if n == tags.len() {
        assert(tags.subrange(0, n) =~= tags);
    } else {
        assert(tags.subrange(0, n + 1).drop_last() =~= tags.subrange(0, n));
        lemma_first_replaceable_extends(tags, needle, n + 1, i);
    }
}

/// Puts compiled script code into the movie as a new script tag. `Add`
/// appends it; `Replace` overwrites the first script tag holding the class
/// name (the first script tag at all when no name is given) and appends
/// when there is none.
pub fn insert_compiled_script(
    movie: &mut Movie,
    mode: ActionScriptInsertMode,
    class_name: &Option<String>,
    code: Vec<u8>,
)
    ensures
        final(movie).header == old(movie).header,
        ({
            let t = Tag::DoAbc { header: None, data: code };
            match mode {
                ActionScriptInsertMode::Add => final(movie).tags@ == old(movie).tags@.push(t),
                ActionScriptInsertMode::Replace => match first_replaceable(old(movie).tags@, needle_of(*class_name)) {
                    Some(i) => final(movie).tags@ == old(movie).tags@.update(i, t),
                    None => final(movie).tags@ == old(movie).tags@.push(t),
                },
            }
        }),
{
    let ghost needle = needle_of(*class_name);
    let t = Tag::DoAbc { header: None, data: code };
    if mode == ActionScriptInsertMode::Add {
        movie.tags.push(t);
        return;
    }
    let mut i: usize = 0;
    while i < movie.tags.len()
        invariant
            0 <= i <= movie.tags.len(),
            *movie == *old(movie),
            needle == needle_of(*class_name),
            mode == ActionScriptInsertMode::Replace,
            t == (Tag::DoAbc { header: None, data: code }),
            first_replaceable(movie.tags@.subrange(0, i as int), needle) is None,
        decreases movie.tags.len() - i,
    {
        proof {
            assert(movie.tags@.subrange(0, i + 1).drop_last() =~= movie.tags@.subrange(0, i as int));
        }
        let hit = match &movie.tags[i] {
            Tag::DoAbc { data, .. } => match class_name {
                Some(c) => contains_class_name(data.as_slice(), c.as_str()),
                None => true,
            },
            _ => false,
        };
        if hit {
            proof {
                let next = movie.tags@.subrange(0, i + 1);
                assert(next.last() == movie.tags@[i as int]);
                assert(replaceable(movie.tags@[i as int], needle));
                assert(first_replaceable(next, needle) == Some(i as int));
                lemma_first_replaceable_extends(movie.tags@, needle, i + 1, i as int);
            }
            movie.tags.set(i, t);
            return;
        }
        i += 1;
    }
    proof {
        assert(movie.tags@.subrange(0, movie.tags@.len() as int) =~= movie.tags@);
    }
    movie.tags.push(t);
}

/// The code of the first script tag of a movie, as the movie is given up.
pub fn first_abc_payload(movie: Movie) -> (r: Option<Vec<u8>>)
    ensures
        match first_replaceable(movie.tags@, None) {
            Some(i) => r == Some(movie.tags@[i]->DoAbc_data),
            None => r is None,
        },
{
    let ghost tags0 = movie.tags@;
    let mut tags = movie.tags;
    let mut i: usize = 0;
    while i < tags.len()
        invariant
            0 <= i <= tags.len(),
            tags@ == tags0,
            tags0 == movie.tags@,
            first_replaceable(tags@.subrange(0, i as int), None) is None,
        decreases tags.len() - i,
    {
        proof {
            assert(tags@.subrange(0, i + 1).drop_last() =~= tags@.subrange(0, i as int));
        }
        if matches!(tags[i], Tag::DoAbc { .. }) {
            proof {
                assert(tags@.subrange(0, i + 1).last() == tags@[i as int]);
                lemma_first_replaceable_extends(tags@, None, i + 1, i as int);
            }
            let ghost found = tags@[i as int];
            assert(first_replaceable(tags0, None) == Some(i as int));
            let t = tags.remove(i);
            assert(t == found);
            if let Tag::DoAbc { header: _, data } = t {
                assert(data == found->DoAbc_data);
                return Some(data);
            }
            return None;
        }
        i += 1;
    }
    proof {
        assert(tags@.subrange(0, tags@.len() as int) =~= tags@);
    }
    None
}

/// Whether one of the bindings is for character `id`.
pub open spec fn rebound(b: Seq<SymbolBinding>, id: u16) -> bool {
    exists|j: int| 0 <= j < b.len() && (#[trigger] b[j]).symbol_id == id
}

pub open spec fn binding_entry(b: SymbolBinding) -> NamedId {
    NamedId { id: b.symbol_id, name: b.class_name }
}

pub open spec fn not_rebound(b: Seq<SymbolBinding>) -> spec_fn(NamedId) -> bool {
    |s: NamedId| !rebound(b, s.id)
}

pub open spec fn entries(b: Seq<SymbolBinding>) -> Seq<NamedId> {
    b.map_values(|x: SymbolBinding| binding_entry(x))
}

/// A symbol table after merging bindings: the old entries whose character
/// is not rebound, then the new bindings in order.
pub open spec fn merged_symbols(old: Seq<NamedId>, b: Seq<SymbolBinding>) -> Seq<NamedId> {
    old.filter(not_rebound(b)) + entries(b)
}

/// The index of the first symbol table among `tags`.
pub open spec fn first_symbol_table(tags: Seq<Tag>) -> Option<int>
    decreases tags.len(),
{
    if tags.len() == 0 {
        None
    } else {
        match first_symbol_table(tags.drop_last()) {
            Some(i) => Some(i),
            None => if tags.last() is SymbolClass { Some(tags.len() - 1) } else { None },
        }
    }
}

proof fn lemma_first_symbol_table_extends(tags: Seq<Tag>, n: int, i: int)
    requires
        0 <= i < n <= tags.len(),
        first_symbol_table(tags.subrange(0, n)) == Some(i),
    ensures
        first_symbol_table(tags) == Some(i),
    decreases tags.len() - n,
{
    if n == tags.len() {
        assert(tags.subrange(0, n) =~= tags);
    } else {
        assert(tags.subrange(0, n + 1).drop_last() =~= tags.subrange(0, n));
        lemma_first_symbol_table_extends(tags, n + 1, i);
    }
}

fn is_rebound(b: &Vec<SymbolBinding>, id: u16) -> (r: bool)
    ensures
        r == rebound(b@, id),
{
    let mut j: usize = 0;
    while j < b.len()
        invariant
            0 <= j <= b.len(),
            forall|k: int| 0 <= k < j ==> (#[trigger] b@[k]).symbol_id != id,
        decreases b.len() - j,
    {
        if b[j].symbol_id == id {
            assert(b@[j as int].symbol_id == id);
            return true;
        }
        j += 1;
    }
    false
}

fn merge_into(old: Vec<NamedId>, bindings: Vec<SymbolBinding>) -> (r: Vec<NamedId>)
    ensures
        r@ == merged_symbols(old@, bindings@),
{
    let ghost orig = old@;
    let ghost pred = not_rebound(bindings@);
    let mut rest = old;
    let mut out: Vec<NamedId> = Vec::new();
    let mut k: usize = 0;
    let total = rest.len();
    proof {
        reveal(Seq::filter);
        assert(orig.subrange(0, 0) =~= Seq::<NamedId>::empty());
    }
    while rest.len() > 0
        invariant
            k + rest@.len() == orig.len(),
            orig.len() == total,
            pred == not_rebound(bindings@),
            rest@ == orig.subrange(k as int, orig.len() as int),
            out@ == orig.subrange(0, k as int).filter(pred),
        decreases rest@.len(),
    {
        let e = rest.remove(0);
        proof {
            assert(orig.subrange(0, k + 1) =~= orig.subrange(0, k as int).push(e));
            orig.subrange(0, k as int).lemma_filter_push(e, pred);
        }
        if !is_rebound(&bindings, e.id) {
            out.push(e);
        }
        k += 1;
        proof {
            assert(rest@ =~= orig.subrange(k as int, orig.len() as int));
        }
    }
    proof {
        assert(orig.subrange(0, k as int) =~= orig);
    }
    let ghost kept = out@;
    let ghost borig = bindings@;
    let mut brest = bindings;
    let mut m: usize = 0;
    let btotal = brest.len();
    proof {
        assert(entries(borig.subrange(0, 0)) =~= Seq::<NamedId>::empty());
        assert(out@ =~= kept + entries(borig.subrange(0, 0)));
    }
    while brest.len() > 0
        invariant
            m + brest@.len() == borig.len(),
            borig.len() == btotal,
            brest@ == borig.subrange(m as int, borig.len() as int),
            out@ == kept + entries(borig.subrange(0, m as int)),
        decreases brest@.len(),
    {
        let b = brest.remove(0);
        let SymbolBinding { symbol_id, class_name } = b;
        out.push(NamedId { id: symbol_id, name: class_name });
        proof {
            assert(entries(borig.subrange(0, m + 1)) =~= entries(borig.subrange(0, m as int)).push(binding_entry(b)));
        }
        m += 1;
        proof {
            assert(brest@ =~= borig.subrange(m as int, borig.len() as int));
        }
    }
    proof {
        assert(borig.subrange(0, m as int) =~= borig);
    }
    out
}

/// Merges symbol bindings into the movie's first symbol table (a new one is
/// appended when there is none): a binding for a character replaces any
/// earlier binding of that character.
pub fn merge_symbol_bindings(movie: &mut Movie, bindings: Vec<SymbolBinding>)
    ensures
        final(movie).header == old(movie).header,
        match first_symbol_table(old(movie).tags@) {
            Some(i) => {
                &&& final(movie).tags@.len() == old(movie).tags@.len()
                &&& forall|j: int| 0 <= j < old(movie).tags@.len() && j != i ==> final(movie).tags@[j] == old(movie).tags@[j]
                &&& final(movie).tags@[i] matches Tag::SymbolClass { symbols }
                &&& symbols@ == merged_symbols(old(movie).tags@[i]->SymbolClass_symbols@, bindings@)
            },
            None => {
                &&& final(movie).tags@.len() == old(movie).tags@.len() + 1
                &&& final(movie).tags@.subrange(0, old(movie).tags@.len() as int) == old(movie).tags@
                &&& final(movie).tags@.last() matches Tag::SymbolClass { symbols }
                &&& symbols@ == entries(bindings@)
            },
        },
{
    let mut i: usize = 0;
    while i < movie.tags.len()
        invariant
            0 <= i <= movie.tags.len(),
            *movie == *old(movie),
            first_symbol_table(movie.tags@.subrange(0, i as int)) is None,
        decreases movie.tags.len() - i,
    {
        proof {
            assert(movie.tags@.subrange(0, i + 1).drop_last() =~= movie.tags@.subrange(0, i as int));
        }
        if matches!(movie.tags[i], Tag::SymbolClass { .. }) {
            proof {
                assert(movie.tags@.subrange(0, i + 1).last() == movie.tags@[i as int]);
                lemma_first_symbol_table_extends(movie.tags@, i + 1, i as int);
            }
            let t = movie.tags.remove(i);
            let old_symbols = match t {
                Tag::SymbolClass { symbols } => symbols,
                _ => Vec::new(),
            };
            let merged = merge_into(old_symbols, bindings);
            movie.tags.insert(i, Tag::SymbolClass { symbols: merged });
            proof {
                assert forall|j: int| 0 <= j < old(movie).tags@.len() && j != i implies movie.tags@[j] == old(movie).tags@[j] by {
                    if j < i {
                        assert(movie.tags@[j] == old(movie).tags@[j]);
                    } else {
                        assert(movie.tags@[j] == old(movie).tags@[j]);
                    }
                }
            }
            return;
        }
        i += 1;
    }
    proof {
        assert(movie.tags@.subrange(0, movie.tags@.len() as int) =~= movie.tags@);
        reveal(Seq::filter);
        assert(Seq::<NamedId>::empty().filter(not_rebound(bindings@)) =~= Seq::<NamedId>::empty());
    }
    let merged = merge_into(Vec::new(), bindings);
    proof {
        assert(merged@ =~= entries(bindings@));
    }
    movie.tags.push(Tag::SymbolClass { symbols: merged });
    proof {
        assert(movie.tags@.subrange(0, old(movie).tags@.len() as int) =~= old(movie).tags@);
    }
}

} // verus!
