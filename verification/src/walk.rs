use vstd::prelude::*;

use crate::entry::entry_views;
use crate::entry::DocsetEntry;
use crate::entry::EntryV;
use crate::error::Error;
use crate::extract::method_entries;
use crate::extract::spec_method_entries;
use crate::extract::spec_variant_entries;
use crate::extract::variant_entries;
use crate::kind::spec_parse_kind;
use crate::kind::EntryType;
use crate::text::contains_sub;
use crate::text::has_suffix;
use crate::text::spec_join;
use crate::text::spec_split;
use crate::text::str_contains;
use crate::text::str_eq;
use crate::text::str_has_suffix;
use crate::text::views_of;

verus! {

/// One file of a docset, as the walker sees it: its path relative to the
/// docset root (with `/` separators), the head of the file (its first few
/// hundred bytes, enough to cover the head section), and its full contents.
pub struct DocFile {
    pub path: String,
    pub head: String,
    pub html: String,
}

/// The mathematical image of one docset file.
pub ghost struct DocFileV {
    pub path: Seq<char>,
    pub head: Seq<char>,
    pub html: Seq<char>,
}

impl View for DocFile {
    type V = DocFileV;

    open spec fn view(&self) -> DocFileV {
        DocFileV { path: self.path@, head: self.head@, html: self.html@ }
    }
}

/// The views of a sequence of docset files.
pub open spec fn file_views(v: Seq<DocFile>) -> Seq<DocFileV> {
    v.map_values(|f: DocFile| f@)
}

/// The sentinel title that marks a redirection page.
pub open spec fn redirection_sentinel() -> Seq<char> {
    "<title>Redirection</title>"@
}

/// Whether the head of a file marks it as a redirection page; such a file
/// yields no entries at all, whatever its name.
pub open spec fn is_redirection_head(head: Seq<char>) -> bool {
    contains_sub(head, redirection_sentinel())
}

/// Runtime test for `is_redirection_head`.
pub fn is_redirection(head: &str) -> (r: bool)
    ensures
        r == is_redirection_head(head@),
{
    str_contains(head, "<title>Redirection</title>")
}

/// Whether a file lies under one of the excluded top-level directories (the
/// crate's own source mirror and the trait-implementor cross listing).
pub open spec fn spec_skipped(path: Seq<char>) -> bool {
    let segs = spec_split(path, '/');
    segs.len() >= 2 && (segs[0] == "src"@ || segs[0] == "implementors"@)
}

/// The accumulated module path of a file: its directory segments joined
/// with `::`, except that the top-level directory is module-path-neutral
/// (it restates the crate's own package name).
pub open spec fn spec_module_path(path: Seq<char>) -> Seq<char> {
    let segs = spec_split(path, '/');
    if segs.len() <= 2 {
        Seq::<char>::empty()
    } else {
        spec_join(segs.subrange(1, segs.len() - 1), "::"@)
    }
}

/// The fully qualified name of a module file: the slash-to-`::`-converted
/// parent directory path relative to the docset root.
pub open spec fn spec_module_name(path: Seq<char>) -> Seq<char> {
    let segs = spec_split(path, '/');
    spec_join(segs.drop_last(), "::"@)
}

/// `{module_path}::{symbol}`, or just `{symbol}` at the module root.
pub open spec fn spec_qualified(mp: Seq<char>, sym: Seq<char>) -> Seq<char> {
    if mp.len() == 0 {
        sym
    } else {
        mp + "::"@ + sym
    }
}

/// Whether a kind can contain implementation blocks with methods.
pub open spec fn has_methods(k: EntryType) -> bool {
    k == EntryType::Struct || k == EntryType::Enum || k == EntryType::Trait
}

/// Whether a kind can contain variant sections (a type alias may resolve to
/// an enum).
pub open spec fn has_variants(k: EntryType) -> bool {
    k == EntryType::Enum || k == EntryType::Type
}

/// The entries one docset file yields, or the unrecognized kind token that
/// aborts the walk.
pub open spec fn spec_file_entries(f: DocFileV) -> Result<Seq<EntryV>, Seq<char>> {
    if !has_suffix(f.path, ".html"@) || spec_skipped(f.path) || is_redirection_head(f.head) {
        Ok(Seq::<EntryV>::empty())
    } else {
        let segs = spec_split(f.path, '/');
        let parts = spec_split(segs.last(), '.');
        if parts.len() == 2 && parts[0] == "index"@ {
            Ok(
                seq![
                    EntryV {
                        name: spec_module_name(f.path),
                        ty: EntryType::Module,
                        path: f.path,
                    },
                ],
            )
        } else if parts.len() == 3 {
            match spec_parse_kind(parts[0]) {
                None => Err(parts[0]),
                Some(k) => {
                    let name = spec_qualified(spec_module_path(f.path), parts[1]);
                    let methods = if has_methods(k) {
                        spec_method_entries(f.html, name, f.path)
                    } else {
                        Seq::<EntryV>::empty()
                    };
                    let variants = if has_variants(k) {
                        spec_variant_entries(f.html, name, f.path)
                    } else {
                        Seq::<EntryV>::empty()
                    };
                    Ok(methods + variants + seq![EntryV { name, ty: k, path: f.path }])
                },
            }
        } else {
            Ok(Seq::<EntryV>::empty())
        }
    }
}

/// The entries of the files from position `i` on, or the first unrecognized
/// kind token.
pub open spec fn spec_walk_from(files: Seq<DocFileV>, i: int) -> Result<Seq<EntryV>, Seq<char>>
    decreases files.len() - i,
{
    if i < 0 || i >= files.len() {
        Ok(Seq::<EntryV>::empty())
    } else {
        match spec_file_entries(files[i]) {
            Err(t) => Err(t),
            Ok(es) => match spec_walk_from(files, i + 1) {
                Err(t) => Err(t),
                Ok(rest) => Ok(es + rest),
            },
        }
    }
}

/// The full flat entry list of a docset, in file order.
pub open spec fn spec_docset_entries(files: Seq<DocFileV>) -> Result<Seq<EntryV>, Seq<char>> {
    spec_walk_from(files, 0)
}

/// Redirection skip: a file whose head carries the redirection sentinel
/// yields no entries at all, whatever its filename shape.
pub proof fn lemma_redirection_skip(f: DocFileV)
    requires
        is_redirection_head(f.head),
    ensures
        spec_file_entries(f) == Ok::<Seq<EntryV>, Seq<char>>(Seq::<EntryV>::empty()),
{
}

/// Runtime test for `spec_skipped`.
fn skipped(path: &str) -> (r: bool)
    ensures
        r == spec_skipped(path@),
{
    let segs = crate::text::split_char(path, '/');
    proof {
        assert(views_of(segs@)[0] == spec_split(path@, '/')[0]);
    }
    segs.len() >= 2 && (str_eq(segs[0].as_str(), "src") || str_eq(segs[0].as_str(), "implementors"))
}

/// Runtime computation of `spec_module_path`.
fn module_path_of(path: &str) -> (r: String)
    ensures
        r@ == spec_module_path(path@),
{
    let segs = crate::text::split_char(path, '/');
    let n = segs.len();
    if n <= 2 {
        return String::new();
    }
    let mut mid: Vec<String> = Vec::new();
    let mut idx: usize = 1;
    while idx < n - 1
        invariant
            n == segs@.len(),
            1 <= idx <= n - 1,
            views_of(mid@) =~= views_of(segs@).subrange(1, idx as int),
        decreases n - idx,
    {
        let ghost before = views_of(mid@);
        mid.push(segs[idx].clone());
        proof {
            assert(views_of(mid@) =~= before.push(segs@[idx as int]@));
            assert(views_of(mid@) =~= views_of(segs@).subrange(1, idx + 1));
        }
        idx = idx + 1;
    }
    let r = crate::text::join_sep(&mid, "::");
    proof {
        assert(views_of(segs@).subrange(1, n - 1) =~= spec_split(path@, '/').subrange(
            1,
            spec_split(path@, '/').len() - 1,
        ));
    }
    r
}

/// Runtime computation of `spec_module_name`.
fn module_name_of(path: &str) -> (r: String)
    ensures
        r@ == spec_module_name(path@),
{
    let segs = crate::text::split_char(path, '/');
    let n = segs.len();
    let mut init: Vec<String> = Vec::new();
    let mut idx: usize = 0;
    while idx < n - 1
        invariant
            n == segs@.len() && n >= 1,
            idx <= n - 1,
            views_of(init@) =~= views_of(segs@).subrange(0, idx as int),
        decreases n - idx,
    {
        let ghost before = views_of(init@);
        init.push(segs[idx].clone());
        proof {
            assert(views_of(init@) =~= before.push(segs@[idx as int]@));
            assert(views_of(init@) =~= views_of(segs@).subrange(0, idx + 1));
        }
        idx = idx + 1;
    }
    let r = crate::text::join_sep(&init, "::");
    proof {
        assert(views_of(segs@).subrange(0, n - 1) =~= views_of(segs@).drop_last());
        assert(views_of(segs@).drop_last() =~= spec_split(path@, '/').drop_last());
    }
    r
}

/// Classifies one docset file and enumerates all entries it yields: at most
/// one top-level module or symbol entry, plus the nested method and variant
/// entries of symbol kinds that can contain them.
pub fn file_entries(f: &DocFile) -> (r: Result<Vec<DocsetEntry>, Error>)
    ensures
        match r {
            Ok(v) => spec_file_entries(f@) == Ok::<_, Seq<char>>(entry_views(v@)),
            Err(e) => e matches Error::UnknownEntryType(m) && spec_file_entries(f@) == Err::<
                Seq<EntryV>,
                _,
            >(m@),
        },
{
    let mut out: Vec<DocsetEntry> = Vec::new();
    proof {
        assert(entry_views(out@) =~= Seq::<EntryV>::empty());
    }
    if !str_has_suffix(f.path.as_str(), ".html") {
        return Ok(out);
    }
    if skipped(f.path.as_str()) {
        return Ok(out);
    }
    if is_redirection(f.head.as_str()) {
        return Ok(out);
    }
    let segs = crate::text::split_char(f.path.as_str(), '/');
    let fname = &segs[segs.len() - 1];
    proof {
        assert(views_of(segs@)[segs@.len() - 1] == spec_split(f.path@, '/').last());
    }
    let parts = crate::text::split_char(fname.as_str(), '.');
    if parts.len() == 2 && str_eq(parts[0].as_str(), "index") {
        proof {
            assert(views_of(parts@)[0] == spec_split(fname@, '.')[0]);
        }
        let name = module_name_of(f.path.as_str());
        let e = DocsetEntry { name, ty: EntryType::Module, path: f.path.clone() };
        out.push(e);
        proof {
            assert(entry_views(out@) =~= seq![
                EntryV { name: spec_module_name(f.path@), ty: EntryType::Module, path: f.path@ },
            ]);
        }
        Ok(out)
    } else if parts.len() == 3 {
        proof {
            assert(views_of(parts@)[0] == spec_split(fname@, '.')[0]);
            assert(views_of(parts@)[1] == spec_split(fname@, '.')[1]);
        }
        match EntryType::parse(parts[0].as_str()) {
            Err(e) => Err(e),
            Ok(k) => {
                let mp = module_path_of(f.path.as_str());
                let name = if mp.unicode_len() == 0 {
                    parts[1].clone()
                } else {
                    let mut q = mp;
                    q.append("::");
                    q.append(parts[1].as_str());
                    q
                };
                proof {
                    assert(name@ =~= spec_qualified(spec_module_path(f.path@), parts@[1]@));
                }
                let is_m = matches!(k, EntryType::Struct | EntryType::Enum | EntryType::Trait);
                let is_v = matches!(k, EntryType::Enum | EntryType::Type);
                if is_m {
                    let mut ms = method_entries(f.html.as_str(), name.as_str(), f.path.as_str());
                    let ghost before = entry_views(out@);
                    let ghost ms_v = entry_views(ms@);
                    out.append(&mut ms);
                    proof {
                        assert(entry_views(out@) =~= before + ms_v);
                    }
                }
                if is_v {
                    let mut vs = variant_entries(f.html.as_str(), name.as_str(), f.path.as_str());
                    let ghost before = entry_views(out@);
                    let ghost vs_v = entry_views(vs@);
                    out.append(&mut vs);
                    proof {
                        assert(entry_views(out@) =~= before + vs_v);
                    }
                }
                let ghost before = entry_views(out@);
                let e = DocsetEntry { name, ty: k, path: f.path.clone() };
                out.push(e);
                proof {
                    let methods = if has_methods(k) {
                        spec_method_entries(f.html@, e@.name, f.path@)
                    } else {
                        Seq::<EntryV>::empty()
                    };
                    let variants = if has_variants(k) {
                        spec_variant_entries(f.html@, e@.name, f.path@)
                    } else {
                        Seq::<EntryV>::empty()
                    };
                    assert(entry_views(out@) =~= before.push(e@));
                    assert(entry_views(out@) =~= methods + variants + seq![e@]);
                }
                Ok(out)
            },
        }
    } else {
        Ok(out)
    }
}

/// Walks a whole docset, handed as its flat file list in traversal order,
/// and accumulates every entry; an unrecognized kind token in any file
/// aborts the walk with `UnknownEntryType`.
pub fn docset_entries(files: &Vec<DocFile>) -> (r: Result<Vec<DocsetEntry>, Error>)
    ensures
        match r {
            Ok(v) => spec_docset_entries(file_views(files@)) == Ok::<_, Seq<char>>(
                entry_views(v@),
            ),
            Err(e) => e matches Error::UnknownEntryType(m) && spec_docset_entries(
                file_views(files@),
            ) == Err::<Seq<EntryV>, _>(m@),
        },
{
    let ghost fv = file_views(files@);
    let n = files.len();
    let mut out: Vec<DocsetEntry> = Vec::new();
    proof {
        assert(entry_views(out@) =~= Seq::<EntryV>::empty());
    }
    for i in 0..n
        invariant
            n == files@.len(),
            fv == file_views(files@),
            spec_walk_from(fv, 0) matches Ok(all) ==> {
                &&& spec_walk_from(fv, i as int) is Ok
                &&& all == entry_views(out@) + spec_walk_from(fv, i as int)->Ok_0
            },
            spec_walk_from(fv, 0) matches Err(t) ==> spec_walk_from(fv, i as int) == Err::<
                Seq<EntryV>,
                _,
            >(t),
    {
        proof {
            assert(fv[i as int] == files@[i as int]@);
        }
        match file_entries(&files[i]) {
            Err(e) => {
                proof {
                    assert(spec_walk_from(fv, i as int) is Err);
                }
                return Err(e);
            },
            Ok(mut es) => {
                let ghost before = entry_views(out@);
                let ghost es_v = entry_views(es@);
                out.append(&mut es);
                proof {
                    assert(entry_views(out@) =~= before + es_v);
                    if spec_walk_from(fv, i + 1) is Ok {
                        assert((before + es_v) + spec_walk_from(fv, i + 1)->Ok_0 =~= before + (es_v
                            + spec_walk_from(fv, i + 1)->Ok_0));
                    }
                }
            },
        }
    }
    proof {
        assert(spec_walk_from(fv, n as int) == Ok::<_, Seq<char>>(Seq::<EntryV>::empty()));
        assert(entry_views(out@) + Seq::<EntryV>::empty() =~= entry_views(out@));
    }
    Ok(out)
}

} // verus!
