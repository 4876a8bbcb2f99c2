//! The orchestration core: traverse the observed contents of a file or
//! directory, build one module per regular file through the caller's parsing
//! capability, and hold the modules sorted by source file name.
//!
//! The traversal works on plain observations of the filesystem (a
//! classification of the source path, the listed entries of a directory, the
//! read text of each file), so that every decision it makes — what is
//! skipped, what fails, in what order the result stands — is verified; the
//! caller performs the reads and hands their outcomes in.

pub mod module;
pub mod write;

use vstd::prelude::*;
use vstd::string::StringExecFns;

use crate::file_type::FileType;
use crate::strutil::{
    file_name_of, file_name_spec, lemma_lex_le_total, lemma_lex_le_transitive, lex_le, str_le,
};

pub use module::{derived_name, Module, ParseModuleError, ParseModuleErrorKind};
pub use write::{Render, WriteError, WriteErrorKind};

verus! {

/// A type can be parsed from some source using some state.
pub trait ParseFrom<Source, State>: Sized {
    /// Error type to return if the source could not be parsed.
    type Error;

    /// Try to parse the source into an instance of self.
    fn parse(source: Source, state: &mut State) -> Result<Self, Self::Error>;
}

/// One entry observed in the source directory: a regular file with the
/// outcome of reading its text, or an entry of any other kind, which the
/// traversal skips.
pub enum SourceEntry {
    /// A regular file and the result of reading it.
    FileEntry {
        /// The entry's path.
        path: String,
        /// The file's text, or the read failure.
        text: Result<String, String>,
    },
    /// An entry that is not a regular file.
    OtherEntry {
        /// The entry's path.
        path: String,
        /// The entry's kind.
        kind: FileType,
    },
}

/// What was observed of the source path: a failure to read its metadata, a
/// regular file with its read text, a directory with its listed entries, or
/// an object of an unsupported kind.
pub enum SourceData {
    /// The source path's metadata could not be read.
    StatFailed {
        /// The underlying failure.
        message: String,
    },
    /// The source path is a regular file; the result of reading it.
    SingleFile {
        /// The file's text, or the read failure.
        text: Result<String, String>,
    },
    /// The source path is a directory; the result of listing it.
    DirListing {
        /// The direct entries, or the listing failure.
        entries: Result<Vec<SourceEntry>, String>,
    },
    /// The source path is neither a regular file nor a directory.
    OtherKind {
        /// The observed kind.
        kind: FileType,
    },
}

/// The source paths of the regular-file entries, in listing order.
pub open spec fn entry_file_paths(es: Seq<SourceEntry>) -> Seq<Seq<char>>
    decreases es.len(),
{
    if es.len() == 0 {
        Seq::empty()
    } else {
        let init = entry_file_paths(es.drop_last());
        match es.last() {
            SourceEntry::FileEntry { path, text } => init.push(path@),
            SourceEntry::OtherEntry { .. } => init,
        }
    }
}

/// Every regular-file entry was read successfully.
pub open spec fn all_file_reads_ok(es: Seq<SourceEntry>) -> bool {
    forall|i: int|
        0 <= i < es.len() ==> match #[trigger] es[i] {
            SourceEntry::FileEntry { path, text } => text is Ok,
            SourceEntry::OtherEntry { .. } => true,
        }
}

/// Some regular-file entry at `path` failed to read with `message`.
pub open spec fn has_failed_read(es: Seq<SourceEntry>, path: Seq<char>, message: Seq<char>) -> bool {
    exists|i: int|
        0 <= i < es.len() && match #[trigger] es[i] {
            SourceEntry::FileEntry { path: p, text } => p@ == path && (text matches Err(m) && m@
                == message),
            SourceEntry::OtherEntry { .. } => false,
        }
}

/// The source-path views of a sequence of modules.
pub open spec fn sources_of<T>(ms: Seq<Module<T>>) -> Seq<Seq<char>> {
    ms.map_values(|m: Module<T>| m.source@)
}

/// Every module satisfies its invariant.
pub open spec fn modules_wf<T>(ms: Seq<Module<T>>) -> bool {
    forall|i: int| 0 <= i < ms.len() ==> (#[trigger] ms[i]).wf()
}

/// The modules stand in ascending order of source file name.
pub open spec fn sorted_by_file_name<T>(ms: Seq<Module<T>>) -> bool {
    forall|i: int, j: int|
        0 <= i < j < ms.len() ==> lex_le(
            file_name_spec(#[trigger] ms[i].source@),
            file_name_spec(#[trigger] ms[j].source@),
        )
}

/// Parses files into modules containing an inner parsed type.
pub struct FileParser<T> {
    /// The modules parsed, sorted by source file name.
    pub modules: Vec<Module<T>>,
}

impl<T> FileParser<T> {
    /// Parse modules from the observed source data. A regular file becomes
    /// one module; a directory becomes one module per regular-file entry,
    /// entries of other kinds silently skipped, the result sorted by source
    /// file name; any other observation is the matching error. The first
    /// failure aborts the traversal: no partial collection is returned.
    #[verifier::loop_isolation(false)]
    pub fn parse<State>(source: &str, data: SourceData, state: &mut State) -> (r: Result<
        FileParser<T>,
        ParseFileError<<T as ParseFrom<String, State>>::Error>,
    >) where T: ParseFrom<String, State>
        ensures
            (match r {
                Ok(fp) => {
                    &&& modules_wf(fp.modules@)
                    &&& sorted_by_file_name(fp.modules@)
                    &&& match data {
                        SourceData::SingleFile { text } => text is Ok && fp.modules@.len() == 1
                            && fp.modules@[0].source@ == source@,
                        SourceData::DirListing { entries } => entries matches Ok(es) && sources_of(
                            fp.modules@,
                        ).to_multiset() == entry_file_paths(es@).to_multiset(),
                        _ => false,
                    }
                },
                Err(e) => match e.kind {
                    ParseFileErrorKind::ReadSourceMetadata { message, path } => path@ == source@
                        && (data matches SourceData::StatFailed { message: m } && message@ == m@),
                    ParseFileErrorKind::ReadDirectory { message, path } => path@ == source@ && (
                    data matches SourceData::DirListing { entries: Err(m) } && message@ == m@),
                    ParseFileErrorKind::UnsupportedFileType { file_type, path } => path@ == source@
                        && (data matches SourceData::OtherKind { kind } && file_type == kind),
                    ParseFileErrorKind::ReadFile { message, path } => match data {
                        SourceData::SingleFile { text } => path@ == source@ && (text matches Err(m)
                            && message@ == m@),
                        SourceData::DirListing { entries } => entries matches Ok(es)
                            && has_failed_read(es@, path@, message@),
                        _ => false,
                    },
                    ParseFileErrorKind::ParseContents { source: _, path } => match data {
                        SourceData::SingleFile { text } => path@ == source@ && text is Ok,
                        SourceData::DirListing { entries } => entries matches Ok(es)
                            && entry_file_paths(es@).contains(path@),
                        _ => false,
                    },
                },
            }),
            (match data {
                SourceData::SingleFile { text } => text is Ok,
                SourceData::DirListing { entries } => entries matches Ok(es) && all_file_reads_ok(
                    es@,
                ),
                _ => false,
            }) ==> (r is Ok || (r matches Err(e) && e.kind is ParseContents)),
    {
        match data {
            SourceData::StatFailed { message } => Err(
                ParseFileError {
                    kind: ParseFileErrorKind::ReadSourceMetadata {
                        message,
                        path: String::from_str(source),
                    },
                },
            ),
            SourceData::OtherKind { kind } => Err(
                ParseFileError {
                    kind: ParseFileErrorKind::UnsupportedFileType {
                        file_type: kind,
                        path: String::from_str(source),
                    },
                },
            ),
            SourceData::SingleFile { text } => {
                match Module::<T>::parse(source, text, state) {
                    Ok(m) => {
                        let mut modules: Vec<Module<T>> = Vec::new();
                        modules.push(m);
                        Ok(FileParser { modules })
                    },
                    Err(e) => Err(ParseFileError::from_module_error(e)),
                }
            },
            SourceData::DirListing { entries: Err(message) } => Err(
                ParseFileError {
                    kind: ParseFileErrorKind::ReadDirectory {
                        message,
                        path: String::from_str(source),
                    },
                },
            ),
            SourceData::DirListing { entries: Ok(mut es) } => {
                let ghost orig = es@;
                let mut modules: Vec<Module<T>> = Vec::new();
                let ghost done: int = 0;
                proof {
                    assert(orig.take(0) =~= Seq::<SourceEntry>::empty());
                }
                while es.len() > 0
                    invariant
                        0 <= done <= orig.len(),
                        es@ =~= orig.skip(done),
                        modules_wf(modules@),
                        sources_of(modules@) =~= entry_file_paths(orig.take(done)),
                    decreases es@.len(),
                {
                    let entry = es.remove(0);
                    proof {
                        assert(es@ =~= orig.skip(done + 1));
                        assert(orig[done] == entry);
                        assert(orig.take(done + 1).drop_last() =~= orig.take(done));
                        assert(orig.take(done + 1).last() == entry);
                    }
                    match entry {
                        SourceEntry::OtherEntry { .. } => {
                            proof {
                                assert(sources_of(modules@) =~= entry_file_paths(
                                    orig.take(done + 1),
                                ));
                            }
                        },
                        SourceEntry::FileEntry { path, text } => {
                            let ghost gtext = text;
                            match Module::<T>::parse(path.as_str(), text, state) {
                                Ok(m) => {
                                    let ghost pre_modules = modules@;
                                    modules.push(m);
                                    proof {
                                        assert(sources_of(modules@) =~= sources_of(
                                            pre_modules,
                                        ).push(m.source@));
                                        assert(sources_of(modules@) =~= entry_file_paths(
                                            orig.take(done + 1),
                                        ));
                                    }
                                },
                                Err(e) => {
                                    proof {
                                        match &e.kind {
                                            ParseModuleErrorKind::ReadFile { message } => {
                                                assert(gtext matches Err(t) && message@ == t@);
                                                assert(orig[done]
                                                    matches SourceEntry::FileEntry {
                                                    path: p,
                                                    text: t,
                                                } && p@ == e.path@ && (t matches Err(m2) && m2@
                                                    == message@));
                                                assert(has_failed_read(orig, e.path@, message@));
                                                assert(!all_file_reads_ok(orig));
                                            },
                                            ParseModuleErrorKind::ParseContents { .. } => {
                                                assert(orig[done]
                                                    matches SourceEntry::FileEntry {
                                                    path: p,
                                                    text: t,
                                                } && p@ == e.path@);
                                                lemma_entry_file_paths_contains(
                                                    orig,
                                                    done,
                                                    e.path@,
                                                );
                                                assert(entry_file_paths(orig).contains(e.path@));
                                            },
                                        }
                                    }
                                    return Err(ParseFileError::from_module_error(e));
                                },
                            }
                        },
                    }
                    proof {
                        done = done + 1;
                    }
                }
                proof {
                    assert(orig.take(done) =~= orig);
                }
                let ghost pre_sort = modules@;
                let modules = sort_modules(modules);
                proof {
                    lemma_wf_multiset(modules@, pre_sort);
                    lemma_sources_multiset(modules@, pre_sort);
                }
                Ok(FileParser { modules })
            },
        }
    }
}

/// Two modules in `ms` share a normalized name.
pub open spec fn has_duplicate_names<T>(ms: Seq<Module<T>>) -> bool {
    exists|i: int, j: int| 0 <= i < j < ms.len() && (#[trigger] ms[i].name@) == (#[trigger] ms[j].name@)
}

impl<T> FileParser<T> {
    /// Do two source files normalize to the same module name? The traversal
    /// keeps both, in file-name order; callers for whom one name must win can
    /// test this before consuming the collection.
    #[verifier::loop_isolation(false)]
    pub fn duplicate_names(&self) -> (r: bool)
        ensures
            r == has_duplicate_names(self.modules@),
    {
        let n = self.modules.len();
        let mut i: usize = 0;
        while i < n
            invariant
                i <= n,
                forall|a: int, b: int|
                    0 <= a < b < n && a < i ==> (#[trigger] self.modules@[a].name@) != (
                    #[trigger] self.modules@[b].name@),
            decreases n - i,
        {
            let mut j: usize = i + 1;
            while j < n
                invariant
                    i < j <= n,
                    forall|b: int|
                        i < b < j ==> (#[trigger] self.modules@[b].name@) != self.modules@[i as int].name@,
                decreases n - j,
            {
                if self.modules[i].name.eq(&self.modules[j].name) {
                    return true;
                }
                j = j + 1;
            }
            i = i + 1;
        }
        false
    }
}

/// A regular-file entry's path is among the file paths of the listing.
proof fn lemma_entry_file_paths_contains(es: Seq<SourceEntry>, i: int, p: Seq<char>)
    requires
        0 <= i < es.len(),
        es[i] matches SourceEntry::FileEntry { path, text } && path@ == p,
    ensures
        entry_file_paths(es).contains(p),
    decreases es.len(),
{
    if i == es.len() - 1 {
        assert(es.last() == es[i]);
        assert(entry_file_paths(es).last() == p);
    } else {
        assert(es.drop_last()[i] == es[i]);
        lemma_entry_file_paths_contains(es.drop_last(), i, p);
        let sub = entry_file_paths(es.drop_last());
        let k = choose|k: int| 0 <= k < sub.len() && sub[k] == p;
        match es.last() {
            SourceEntry::FileEntry { .. } => {
                assert(entry_file_paths(es)[k] == p);
            },
            SourceEntry::OtherEntry { .. } => {
                assert(entry_file_paths(es)[k] == p);
            },
        }
    }
}

/// Sequences holding the same multiset of modules hold the same multiset of
/// source paths.
proof fn lemma_sources_multiset<T>(a: Seq<Module<T>>, b: Seq<Module<T>>)
    requires
        a.to_multiset() == b.to_multiset(),
    ensures
        sources_of(a).to_multiset() == sources_of(b).to_multiset(),
    decreases a.len(),
{
    broadcast use vstd::seq_lib::group_to_multiset_ensures;

    if a.len() == 0 {
        assert(b.to_multiset().len() == 0);
        assert(b.len() == 0);
        assert(sources_of(a) =~= sources_of(b));
    } else {
        let x = a[0];
        assert(a.contains(x));
        assert(a.to_multiset().count(x) > 0);
        assert(b.to_multiset().count(x) > 0);
        assert(b.contains(x));
        let j = choose|j: int| 0 <= j < b.len() && b[j] == x;
        let a1 = a.remove(0);
        let b1 = b.remove(j);
        assert(a1.to_multiset() =~= a.to_multiset().remove(x));
        assert(b1.to_multiset() =~= b.to_multiset().remove(x));
        lemma_sources_multiset(a1, b1);
        assert(sources_of(a).remove(0) =~= sources_of(a1));
        assert(sources_of(b).remove(j) =~= sources_of(b1));
        assert(sources_of(a).remove(0).to_multiset() =~= sources_of(a).to_multiset().remove(
            x.source@,
        ));
        assert(sources_of(b)[j] == x.source@);
        assert(sources_of(b).remove(j).to_multiset() =~= sources_of(b).to_multiset().remove(
            x.source@,
        ));
        assert(sources_of(a)[0] == x.source@);
        assert(sources_of(a).contains(x.source@));
        assert(sources_of(a).to_multiset().count(x.source@) > 0);
        assert(sources_of(b).contains(x.source@));
        assert(sources_of(b).to_multiset().count(x.source@) > 0);
        assert forall|y: Seq<char>|
            sources_of(a).to_multiset().count(y) == sources_of(b).to_multiset().count(y) by {
            if y == x.source@ {
                assert(sources_of(a).to_multiset().remove(y).count(y) == sources_of(
                    b,
                ).to_multiset().remove(y).count(y));
            } else {
                assert(sources_of(a).to_multiset().remove(x.source@).count(y) == sources_of(
                    a,
                ).to_multiset().count(y));
                assert(sources_of(b).to_multiset().remove(x.source@).count(y) == sources_of(
                    b,
                ).to_multiset().count(y));
            }
        }
        assert(sources_of(a).to_multiset() =~= sources_of(b).to_multiset());
    }
}

/// Sequences holding the same multiset of modules are well-formed together.
proof fn lemma_wf_multiset<T>(a: Seq<Module<T>>, b: Seq<Module<T>>)
    requires
        a.to_multiset() == b.to_multiset(),
        modules_wf(b),
    ensures
        modules_wf(a),
{
    broadcast use vstd::seq_lib::group_to_multiset_ensures;

    assert forall|i: int| 0 <= i < a.len() implies (#[trigger] a[i]).wf() by {
        assert(a.contains(a[i]));
        assert(a.to_multiset().count(a[i]) > 0);
        assert(b.to_multiset().count(a[i]) > 0);
        assert(b.contains(a[i]));
        let j = choose|j: int| 0 <= j < b.len() && b[j] == a[i];
        assert(b[j].wf());
    }
}

/// The collection's order is a function of the files alone, not of the order
/// the directory was listed in: two sorted collections holding the same
/// source paths, no two of which share a file name, list their sources
/// identically — whatever capabilities produced them.
pub proof fn lemma_order_independent_of_listing<T, U>(a: Seq<Module<T>>, b: Seq<Module<U>>)
    requires
        sorted_by_file_name(a),
        sorted_by_file_name(b),
        sources_of(a).to_multiset() == sources_of(b).to_multiset(),
        forall|i: int, j: int|
            0 <= i < j < a.len() ==> file_name_spec(#[trigger] a[i].source@) != file_name_spec(
                #[trigger] a[j].source@,
            ),
    ensures
        sources_of(a) == sources_of(b),
    decreases a.len(),
{
    broadcast use vstd::seq_lib::group_to_multiset_ensures;

    let sa = sources_of(a);
    let sb = sources_of(b);
    assert(sa.to_multiset().len() == sb.to_multiset().len());
    if a.len() == 0 {
        assert(sa =~= sb);
    } else {
        assert(sa.len() == sb.len() && sb.len() == b.len());
        // the head of each collection is a source of the other
        assert(sb.contains(sb[0]));
        assert(sa.to_multiset().count(sb[0]) > 0);
        assert(sa.contains(sb[0]));
        let j = choose|j: int| 0 <= j < sa.len() && sa[j] == sb[0];
        assert(sb.to_multiset().count(sa[0]) > 0);
        assert(sb.contains(sa[0]));
        let k = choose|k: int| 0 <= k < sb.len() && sb[k] == sa[0];
        // both heads carry the least file name, so the names agree
        assert(sa[j] == a[j].source@ && sa[0] == a[0].source@);
        assert(sb[k] == b[k].source@ && sb[0] == b[0].source@);
        if j > 0 && k > 0 {
            // then each head's name bounds the other from below, the names
            // agree, and a's sources would repeat a file name
            assert(lex_le(file_name_spec(a[0].source@), file_name_spec(a[j].source@)));
            assert(lex_le(file_name_spec(b[0].source@), file_name_spec(b[k].source@)));
            assert(a[j].source@ == b[0].source@);
            assert(b[k].source@ == a[0].source@);
            crate::strutil::lemma_lex_le_antisymmetric(
                file_name_spec(a[0].source@),
                file_name_spec(b[0].source@),
            );
            assert(file_name_spec(a[j].source@) == file_name_spec(a[0].source@));
            assert(false);
        }
        assert(sa[0] == sb[0]);
        // peel the heads and recurse
        let a1 = a.drop_first();
        let b1 = b.drop_first();
        assert(sources_of(a1) =~= sa.drop_first());
        assert(sources_of(b1) =~= sb.drop_first());
        assert(sa.remove(0) =~= sa.drop_first());
        assert(sb.remove(0) =~= sb.drop_first());
        assert(sa.drop_first().to_multiset() =~= sa.to_multiset().remove(sa[0]));
        assert(sb.drop_first().to_multiset() =~= sb.to_multiset().remove(sb[0]));
        assert(forall|i: int| 0 <= i < a1.len() ==> #[trigger] a1[i] == a[i + 1]);
        assert(forall|i: int| 0 <= i < b1.len() ==> #[trigger] b1[i] == b[i + 1]);
        lemma_order_independent_of_listing(a1, b1);
        assert(sa.drop_first() == sb.drop_first());
        assert forall|i: int| 0 <= i < sa.len() implies sa[i] == sb[i] by {
            if i > 0 {
                assert(sa[i] == sa.drop_first()[i - 1]);
                assert(sb[i] == sb.drop_first()[i - 1]);
            }
        }
        assert(sa =~= sb);
    }
}

/// Sort modules ascending by source file name, keeping exactly the same
/// multiset of modules.
fn sort_modules<T>(v: Vec<Module<T>>) -> (r: Vec<Module<T>>)
    ensures
        sorted_by_file_name(r@),
        r@.to_multiset() == v@.to_multiset(),
        r@.len() == v@.len(),
{
    let mut v = v;
    let ghost orig = v@;
    let mut i: usize = 1;
    while i < v.len()
        invariant
            v@.len() == orig.len(),
            v@.to_multiset() == orig.to_multiset(),
            forall|k: int, l: int|
                0 <= k < l < i && l < v@.len() ==> lex_le(
                    file_name_spec(#[trigger] v@[k].source@),
                    file_name_spec(#[trigger] v@[l].source@),
                ),
        decreases v@.len() - i,
    {
        let ghost before = v@;
        let m = v.remove(i);
        let key = file_name_of(m.source.as_str());
        proof {
            broadcast use vstd::seq_lib::group_to_multiset_ensures;

            assert(v@.to_multiset() =~= before.to_multiset().remove(m));
        }
        let mut j: usize = 0;
        while j < i && str_le(file_name_of(v[j].source.as_str()).as_str(), key.as_str())
            invariant
                j <= i < before.len(),
                v@ == before.remove(i as int),
                key@ == file_name_spec(m.source@),
                forall|k: int|
                    0 <= k < j ==> lex_le(
                        file_name_spec(#[trigger] v@[k].source@),
                        file_name_spec(m.source@),
                    ),
            decreases i - j,
        {
            j = j + 1;
        }
        proof {
            broadcast use vstd::seq_lib::group_to_multiset_ensures;

            if j < i {
                lemma_lex_le_total(file_name_spec(v@[j as int].source@), file_name_spec(m.source@));
            }
        }
        let ghost mid = v@;
        v.insert(j, m);
        proof {
            broadcast use vstd::seq_lib::group_to_multiset_ensures;

            vstd::seq_lib::to_multiset_insert(mid, j as int, m);
            assert(v@.to_multiset() =~= orig.to_multiset());
            assert(mid =~= before.remove(i as int));
            assert(before.remove(i as int).take(i as int) =~= before.take(i as int));
            assert forall|k: int, l: int|
                0 <= k < l < i + 1 && l < v@.len() implies lex_le(
                file_name_spec(#[trigger] v@[k].source@),
                file_name_spec(#[trigger] v@[l].source@),
            ) by {
                let jj = j as int;
                let sk = if k < jj {
                    mid[k].source@
                } else if k == jj {
                    m.source@
                } else {
                    mid[k - 1].source@
                };
                assert(v@[k].source@ == sk);
                let sl = if l < jj {
                    mid[l].source@
                } else if l == jj {
                    m.source@
                } else {
                    mid[l - 1].source@
                };
                assert(v@[l].source@ == sl);
                if k < jj && l == jj {
                    // scan guarantee
                } else if k == jj && l > jj {
                    if l - 1 > jj {
                        assert(mid[jj] == before[jj] && mid[l - 1] == before[l - 1]);
                        lemma_lex_le_transitive(
                            file_name_spec(m.source@),
                            file_name_spec(mid[jj].source@),
                            file_name_spec(mid[l - 1].source@),
                        );
                    }
                } else {
                }
            }
        }
        i = i + 1;
    }
    proof {
        broadcast use vstd::seq_lib::group_to_multiset_ensures;

    }
    v
}

/// Failed to parse the file or directory.
#[derive(Debug)]
#[non_exhaustive]
pub struct ParseFileError<E> {
    /// The error variants.
    pub kind: ParseFileErrorKind<E>,
}

/// The variants for failing to parse a file or directory.
#[derive(Debug)]
#[non_exhaustive]
pub enum ParseFileErrorKind<E> {
    /// Failed to read the source file metadata.
    #[non_exhaustive]
    ReadSourceMetadata {
        /// The underlying failure.
        message: String,
        /// The source file/directory path.
        path: String,
    },
    /// Failed to read the source directory.
    #[non_exhaustive]
    ReadDirectory {
        /// The underlying failure.
        message: String,
        /// The source directory path.
        path: String,
    },
    /// The source path pointed to an unsupported file type.
    #[non_exhaustive]
    UnsupportedFileType {
        /// The file type of the source.
        file_type: FileType,
        /// The path to the source.
        path: String,
    },
    /// Failed to read one of the source files.
    #[non_exhaustive]
    ReadFile {
        /// The underlying failure.
        message: String,
        /// The path to the source.
        path: String,
    },
    /// Failed to parse one of the files.
    #[non_exhaustive]
    ParseContents {
        /// The parsing capability's error.
        source: E,
        /// The path to the source.
        path: String,
    },
}

/// The message of each [`ParseFileErrorKind`] variant, naming the offending
/// path between backticks.
pub open spec fn parse_file_error_kind_message<E>(k: ParseFileErrorKind<E>) -> Seq<char> {
    match k {
        ParseFileErrorKind::ReadSourceMetadata { message, path } => "failed reading the metadata for `"@
            + path@ + "`"@,
        ParseFileErrorKind::ReadDirectory { message, path } => "failed reading the directory `"@
            + path@ + "`"@,
        ParseFileErrorKind::UnsupportedFileType { file_type, path } => "source file type `"@
            + crate::file_type::file_type_name(file_type) + "` is unsupported `"@ + path@ + "`"@,
        ParseFileErrorKind::ReadFile { message, path } => "failed reading the file `"@ + path@
            + "`"@,
        ParseFileErrorKind::ParseContents { source, path } => "failed to parse the contents of `"@
            + path@ + "`"@,
    }
}

impl<E> ParseFileError<E> {
    /// The fixed message of the collection-level error.
    pub fn message(&self) -> (r: String)
        ensures
            r@ == "error while parsing the source file/directory"@,
    {
        String::from_str("error while parsing the source file/directory")
    }

    /// Wrap a module error, keeping its path and lifting its kind: a module
    /// read failure becomes `ReadFile`, a capability rejection becomes
    /// `ParseContents`.
    pub fn from_module_error(e: ParseModuleError<E>) -> (r: ParseFileError<E>)
        ensures
            (match e.kind {
                ParseModuleErrorKind::ReadFile { message } => r.kind
                    matches ParseFileErrorKind::ReadFile { message: m2, path: p2 } && m2@
                    == message@ && p2@ == e.path@,
                ParseModuleErrorKind::ParseContents { source } => r.kind
                    matches ParseFileErrorKind::ParseContents { source: s2, path: p2 } && p2@
                    == e.path@,
            }),
    {
        match e.kind {
            ParseModuleErrorKind::ReadFile { message } => ParseFileError {
                kind: ParseFileErrorKind::ReadFile { message, path: e.path },
            },
            ParseModuleErrorKind::ParseContents { source } => ParseFileError {
                kind: ParseFileErrorKind::ParseContents { source, path: e.path },
            },
        }
    }
}

impl<E> ParseFileErrorKind<E> {
    /// Render this variant's message, per [`parse_file_error_kind_message`].
    pub fn message(&self) -> (r: String)
        ensures
            r@ == parse_file_error_kind_message(*self),
    {
        match self {
            ParseFileErrorKind::ReadSourceMetadata { message: _, path } => String::from_str(
                "failed reading the metadata for `",
            ).concat(path.as_str()).concat("`"),
            ParseFileErrorKind::ReadDirectory { message: _, path } => String::from_str(
                "failed reading the directory `",
            ).concat(path.as_str()).concat("`"),
            ParseFileErrorKind::UnsupportedFileType { file_type, path } => String::from_str(
                "source file type `",
            ).concat(file_type.name().as_str()).concat("` is unsupported `").concat(
                path.as_str(),
            ).concat("`"),
            ParseFileErrorKind::ReadFile { message: _, path } => String::from_str(
                "failed reading the file `",
            ).concat(path.as_str()).concat("`"),
            ParseFileErrorKind::ParseContents { source: _, path } => String::from_str(
                "failed to parse the contents of `",
            ).concat(path.as_str()).concat("`"),
        }
    }

    /// The underlying cause carried by this variant, where one is carried:
    /// the read or listing failure's message. An unsupported file type has no
    /// underlying cause, and a capability rejection's cause is the
    /// capability's own error, which the caller holds.
    pub fn cause_message(&self) -> (r: Option<&String>)
        ensures
            (match *self {
                ParseFileErrorKind::ReadSourceMetadata { message, .. } => r matches Some(m) && m@
                    == message@,
                ParseFileErrorKind::ReadDirectory { message, .. } => r matches Some(m) && m@
                    == message@,
                ParseFileErrorKind::ReadFile { message, .. } => r matches Some(m) && m@
                    == message@,
                ParseFileErrorKind::UnsupportedFileType { .. } => r is None,
                ParseFileErrorKind::ParseContents { .. } => r is None,
            }),
    {
        match self {
            ParseFileErrorKind::ReadSourceMetadata { message, .. } => Some(message),
            ParseFileErrorKind::ReadDirectory { message, .. } => Some(message),
            ParseFileErrorKind::ReadFile { message, .. } => Some(message),
            ParseFileErrorKind::UnsupportedFileType { .. } => None,
            ParseFileErrorKind::ParseContents { .. } => None,
        }
    }
}

} // verus!
