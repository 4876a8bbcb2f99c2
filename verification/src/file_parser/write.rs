//! The emission stage: render a module collection into output text, in
//! module order, and guard the write target.
//!
//! Writing and the external formatting filter are the caller's: the caller
//! renders the parts here, pipes them through its formatter (as one piece,
//! or one piece per module concurrently), gathers the outcomes back into
//! module order with [`gather_in_order`], and joins them with [`assemble`].
//! Everything that decides bytes and order is verified here; only the pipes
//! stay outside.

use vstd::prelude::*;
use vstd::string::StringExecFns;

use crate::file_parser::module::Module;
use crate::file_parser::FileParser;
use crate::file_type::{file_type_name, FileType};

verus! {

/// A render capability: the caller's way of writing a module's contents as
/// output text.
pub trait Render {
    /// Render these contents as output text.
    fn render(&self) -> String;
}

/// The rendered form of one module: its contents' text wrapped in a named
/// module block.
pub open spec fn module_render_spec(name: Seq<char>, body: Seq<char>) -> Seq<char> {
    "pub mod "@ + name + " {\n"@ + body + "\n}\n"@
}

/// The in-order concatenation of rendered parts.
pub open spec fn concat_views(parts: Seq<Seq<char>>) -> Seq<char>
    decreases parts.len(),
{
    if parts.len() == 0 {
        Seq::empty()
    } else {
        parts[0] + concat_views(parts.drop_first())
    }
}

proof fn lemma_concat_views_push(parts: Seq<Seq<char>>, x: Seq<char>)
    ensures
        concat_views(parts.push(x)) == concat_views(parts) + x,
    decreases parts.len(),
{
    if parts.len() == 0 {
        let e = Seq::<Seq<char>>::empty();
        assert(parts =~= e);
        assert(parts.push(x).drop_first() =~= e);
        assert(concat_views(e) == Seq::<char>::empty());
        assert(parts.push(x)[0] == x);
        assert(concat_views(parts.push(x)) == x + concat_views(e));
        assert(x + Seq::<char>::empty() =~= x);
        assert(concat_views(parts) + x =~= x);
    } else {
        assert(parts.push(x).drop_first() =~= parts.drop_first().push(x));
        lemma_concat_views_push(parts.drop_first(), x);
        assert(parts.push(x)[0] == parts[0]);
        assert(concat_views(parts.push(x)) == parts[0] + concat_views(parts.drop_first().push(x)));
        assert(concat_views(parts.push(x)) == parts[0] + (concat_views(parts.drop_first()) + x));
        assert(parts[0] + (concat_views(parts.drop_first()) + x) =~= (parts[0] + concat_views(
            parts.drop_first(),
        )) + x);
    }
}

/// `out` is the rendered form of a module named `name`: some body wrapped in
/// the module's named block.
pub open spec fn is_module_render(name: Seq<char>, out: Seq<char>) -> bool {
    exists|body: Seq<char>| out == #[trigger] module_render_spec(name, body)
}

/// `out` is the blocking render of the collection `ms`: the in-order
/// concatenation of one rendered part per module.
pub open spec fn is_collection_render<T>(
    ms: Seq<Module<T>>,
    parts: Seq<Seq<char>>,
    out: Seq<char>,
) -> bool {
    &&& parts.len() == ms.len()
    &&& forall|i: int| 0 <= i < parts.len() ==> is_module_render(ms[i].name@, #[trigger] parts[i])
    &&& out == concat_views(parts)
}

impl<T> Module<T> {
    /// Wrap an already rendered body in this module's named block.
    pub fn render_with(&self, body: &str) -> (r: String)
        ensures
            r@ == module_render_spec(self.name@, body@),
    {
        String::from_str("pub mod ").concat(self.name.as_str()).concat(" {\n").concat(body).concat(
            "\n}\n",
        )
    }

    /// Render this module: its contents through the render capability, the
    /// result wrapped in the module's named block.
    pub fn render(&self) -> (r: String) where T: Render
        ensures
            is_module_render(self.name@, r@),
    {
        let body = self.contents.render();
        let r = self.render_with(body.as_str());
        proof {
            assert(r@ == module_render_spec(self.name@, body@));
        }
        r
    }
}

impl<T> FileParser<T> {
    /// Render every module, one part per module, in collection order.
    #[verifier::loop_isolation(false)]
    pub fn render_parts(&self) -> (r: Vec<String>) where T: Render
        ensures
            r@.len() == self.modules@.len(),
            forall|i: int|
                0 <= i < r@.len() ==> is_module_render(self.modules@[i].name@, (#[trigger] r@[i])@),
    {
        let mut parts: Vec<String> = Vec::new();
        let n = self.modules.len();
        let mut i: usize = 0;
        while i < n
            invariant
                i <= n,
                parts@.len() == i,
                forall|k: int|
                    0 <= k < i ==> is_module_render(
                        self.modules@[k].name@,
                        (#[trigger] parts@[k])@,
                    ),
            decreases n - i,
        {
            let part = self.modules[i].render();
            parts.push(part);
            i = i + 1;
        }
        parts
    }

    /// Render the whole collection as one unit: the modules' rendered parts
    /// joined in collection order.
    pub fn render(&self) -> (r: String) where T: Render
        ensures
            exists|parts: Seq<Seq<char>>| is_collection_render(self.modules@, parts, r@),
    {
        let parts = self.render_parts();
        let r = assemble(&parts);
        proof {
            let views = parts@.map_values(|p: String| p@);
            assert forall|i: int| 0 <= i < views.len() implies is_module_render(
                self.modules@[i].name@,
                #[trigger] views[i],
            ) by {
                assert(views[i] == parts@[i]@);
            }
            assert(is_collection_render(self.modules@, views, r@));
        }
        r
    }
}

/// Join rendered (or formatted) parts in order into one output text.
pub fn assemble(parts: &Vec<String>) -> (r: String)
    ensures
        r@ == concat_views(parts@.map_values(|p: String| p@)),
{
    let ghost views = parts@.map_values(|p: String| p@);
    let mut out = String::new();
    let n = parts.len();
    let mut i: usize = 0;
    proof {
        assert(views.take(0) =~= Seq::<Seq<char>>::empty());
    }
    while i < n
        invariant
            n == parts@.len(),
            i <= n,
            views == parts@.map_values(|p: String| p@),
            out@ == concat_views(views.take(i as int)),
        decreases n - i,
    {
        out.append(parts[i].as_str());
        proof {
            assert(views.take(i as int).push(views[i as int]) =~= views.take(i as int + 1));
            lemma_concat_views_push(views.take(i as int), views[i as int]);
        }
        i = i + 1;
    }
    proof {
        assert(views.take(n as int) =~= views);
    }
    out
}

/// Some result carries the index `i`.
pub open spec fn index_covered(results: Seq<(usize, String)>, i: int) -> bool {
    exists|k: int| 0 <= k < results.len() && (#[trigger] results[k]).0 == i
}

/// The indexed results cover every slot below `n` exactly once and nothing
/// else: each index is below `n`, no index repeats, and every index below
/// `n` occurs.
pub open spec fn results_complete(results: Seq<(usize, String)>, n: nat) -> bool {
    &&& forall|k: int| 0 <= k < results.len() ==> (#[trigger] results[k]).0 < n
    &&& forall|k: int, l: int|
        0 <= k < l < results.len() ==> (#[trigger] results[k]).0 != (#[trigger] results[l]).0
    &&& forall|i: int| 0 <= i < n ==> #[trigger] index_covered(results, i)
}

/// Put concurrently produced parts back into module order: each result pair
/// carries the module index it belongs to. Succeeds exactly when the results
/// cover every index below `n` once; the output is then determined by which
/// text each index carries, never by arrival order.
#[verifier::loop_isolation(false)]
pub fn gather_in_order(n: usize, results: Vec<(usize, String)>) -> (r: Option<Vec<String>>)
    ensures
        (r matches Some(parts) ==> {
            &&& parts@.len() == n
            &&& forall|k: int|
                0 <= k < results@.len() ==> (#[trigger] results@[k]).0 < n && parts@[results@[k].0
                    as int] == results@[k].1
        }),
        (r is Some) <==> results_complete(results@, n as nat),
{
    let ghost all = results@;
    let mut results = results;
    let mut slots: Vec<Option<String>> = Vec::new();
    let mut i: usize = 0;
    while i < n
        invariant
            i <= n,
            slots@.len() == i,
            forall|j: int| 0 <= j < i ==> (#[trigger] slots@[j]) is None,
        decreases n - i,
    {
        slots.push(None);
        i = i + 1;
    }
    let ghost done: int = 0;
    while results.len() > 0
        invariant
            0 <= done <= all.len(),
            results@ =~= all.skip(done),
            slots@.len() == n,
            forall|k: int| 0 <= k < done ==> (#[trigger] all[k]).0 < n,
            forall|k: int, l: int| 0 <= k < l < done ==> (#[trigger] all[k]).0 != (#[trigger] all[l]).0,
            forall|k: int|
                0 <= k < done ==> (slots@[(#[trigger] all[k]).0 as int] matches Some(s) && s
                    == all[k].1),
            forall|j: int|
                0 <= j < n && (#[trigger] slots@[j]) is Some ==> exists|k: int|
                    0 <= k < done && (#[trigger] all[k]).0 == j,
        decreases results@.len(),
    {
        let (idx, text) = results.remove(0);
        proof {
            assert(all[done] == (idx, text));
            assert(results@ =~= all.skip(done + 1));
        }
        if idx >= n {
            proof {
                assert(!results_complete(all, n as nat));
            }
            return None;
        }
        let filled = slots[idx].is_some();
        if filled {
            proof {
                let k = choose|k: int| 0 <= k < done && (#[trigger] all[k]).0 == idx as int;
                assert(all[k].0 == all[done].0);
                assert(!results_complete(all, n as nat));
            }
            return None;
        }
        slots.set(idx, Some(text));
        proof {
            done = done + 1;
        }
    }
    proof {
        assert(done == all.len());
    }
    let mut parts: Vec<String> = Vec::new();
    let mut j: usize = 0;
    while j < n
        invariant
            j <= n,
            slots@.len() == n,
            parts@.len() == j,
            forall|k: int|
                0 <= k < all.len() ==> (#[trigger] all[k]).0 < n && (slots@[all[k].0 as int]
                    matches Some(s) && s == all[k].1),
            forall|jj: int|
                0 <= jj < n && (#[trigger] slots@[jj]) is Some ==> exists|k: int|
                    0 <= k < all.len() && (#[trigger] all[k]).0 == jj,
            forall|k: int, l: int|
                0 <= k < l < all.len() ==> (#[trigger] all[k]).0 != (#[trigger] all[l]).0,
            forall|jj: int|
                0 <= jj < j ==> ((#[trigger] slots@[jj]) matches Some(s) && parts@[jj] == s),
        decreases n - j,
    {
        let got = slots[j].is_some();
        if !got {
            proof {
                assert forall|i2: int|
                    !(0 <= i2 < all.len() && (#[trigger] all[i2]).0 == j as int) by {
                    if 0 <= i2 < all.len() && all[i2].0 == j as int {
                        assert(slots@[j as int] is Some);
                    }
                }
                assert(!index_covered(all, j as int));
                assert(!results_complete(all, n as nat));
            }
            return None;
        }
        let text = slots[j].as_ref().unwrap().clone();
        parts.push(text);
        j = j + 1;
    }
    proof {
        assert forall|i2: int| 0 <= i2 < n implies #[trigger] index_covered(all, i2) by {
            assert(slots@[i2] is Some);
            let k = choose|k: int| 0 <= k < all.len() && (#[trigger] all[k]).0 == i2;
            assert(0 <= k < all.len() && all[k].0 == i2);
        }
        assert(results_complete(all, n as nat));
        assert forall|k: int|
            0 <= k < all.len() implies (#[trigger] all[k]).0 < n && parts@[all[k].0 as int]
            == all[k].1 by {
            assert(slots@[all[k].0 as int] matches Some(s) && s == all[k].1);
            assert(parts@[all[k].0 as int] == slots@[all[k].0 as int]->Some_0);
        }
    }
    Some(parts)
}

/// Gathering is independent of completion order: two successful gathers over
/// results that pair every index below `n` with the same text give byte-for-
/// byte the same parts. With a deterministic render and formatter this makes
/// parallel emission agree with blocking emission.
pub proof fn lemma_gather_order_independent(
    n: nat,
    r1: Seq<(usize, String)>,
    parts1: Seq<String>,
    r2: Seq<(usize, String)>,
    parts2: Seq<String>,
)
    requires
        parts1.len() == n,
        parts2.len() == n,
        forall|k: int| 0 <= k < r1.len() ==> (#[trigger] r1[k]).0 < n && parts1[r1[k].0 as int] == r1[k].1,
        forall|k: int| 0 <= k < r2.len() ==> (#[trigger] r2[k]).0 < n && parts2[r2[k].0 as int] == r2[k].1,
        results_complete(r1, n),
        results_complete(r2, n),
        forall|k: int, l: int|
            0 <= k < r1.len() && 0 <= l < r2.len() && (#[trigger] r1[k]).0 == (#[trigger] r2[l]).0
                ==> r1[k].1 == r2[l].1,
    ensures
        parts1 == parts2,
{
    assert forall|i: int| 0 <= i < n implies parts1[i] == parts2[i] by {
        assert(index_covered(r1, i));
        assert(index_covered(r2, i));
        let k1 = choose|k: int| 0 <= k < r1.len() && (#[trigger] r1[k]).0 == i;
        let k2 = choose|k: int| 0 <= k < r2.len() && (#[trigger] r2[k]).0 == i;
        assert(parts1[i] == r1[k1].1);
        assert(parts2[i] == r2[k2].1);
        assert(r1[k1].1 == r2[k2].1);
    }
    assert(parts1 =~= parts2);
}

/// Guard the write target: writing may proceed exactly when the target does
/// not exist yet or is a regular file; an existing target of any other kind
/// is refused, untouched, with an `UnsupportedFileType` error naming it.
pub fn check_target(path: &str, target_exists: bool, kind: FileType) -> (r: Result<(), WriteError>)
    ensures
        r is Ok <==> (!target_exists || kind == FileType::File),
        r matches Err(e) ==> e.kind matches WriteErrorKind::UnsupportedFileType {
            file_type,
            path: p,
        } && file_type == kind && p@ == path@,
{
    if target_exists && !matches!(kind, FileType::File) {
        Err(
            WriteError {
                kind: WriteErrorKind::UnsupportedFileType {
                    file_type: kind,
                    path: String::from_str(path),
                },
            },
        )
    } else {
        Ok(())
    }
}

/// Failed to write output to the target.
#[derive(Debug)]
#[non_exhaustive]
pub struct WriteError {
    /// Error variants.
    pub kind: WriteErrorKind,
}

/// Write error variants.
#[derive(Debug)]
#[non_exhaustive]
pub enum WriteErrorKind {
    /// The target file type is unsupported.
    #[non_exhaustive]
    UnsupportedFileType {
        /// The target file type.
        file_type: FileType,
        /// The target file path.
        path: String,
    },
    /// Opening the target for writing failed.
    #[non_exhaustive]
    OpenTarget {
        /// The target file path.
        path: String,
        /// The underlying failure.
        message: String,
    },
    /// Reading the target metadata failed.
    #[non_exhaustive]
    ReadMetadata {
        /// The target file path.
        path: String,
        /// The underlying failure.
        message: String,
    },
    /// The external formatting filter failed to run or rejected the output.
    #[non_exhaustive]
    RustFmt {
        /// The underlying failure.
        message: String,
    },
}

/// The message of each [`WriteErrorKind`] variant.
pub open spec fn write_error_kind_message(k: WriteErrorKind) -> Seq<char> {
    match k {
        WriteErrorKind::UnsupportedFileType { file_type, path } => path@
            + " exists with unsupported file type "@ + file_type_name(file_type),
        WriteErrorKind::OpenTarget { path, message } => "failed to open/create target file "@
            + path@ + " for writing"@,
        WriteErrorKind::ReadMetadata { path, message } => "failed to read the metadata of the target file "@
            + path@,
        WriteErrorKind::RustFmt { message } => "failed to run rustfmt on the output"@,
    }
}

impl WriteError {
    /// The fixed message of the write-level error.
    pub fn message(&self) -> (r: String)
        ensures
            r@ == "failed to write output"@,
    {
        String::from_str("failed to write output")
    }

    /// An `OpenTarget` error: opening `path` for writing failed with
    /// `message`.
    pub fn open_target(path: String, message: String) -> (r: WriteError)
        ensures
            r.kind matches WriteErrorKind::OpenTarget { path: p, message: m } && p@ == path@ && m@
                == message@,
    {
        WriteError { kind: WriteErrorKind::OpenTarget { path, message } }
    }

    /// A `ReadMetadata` error: reading the metadata of `path` failed with
    /// `message`.
    pub fn read_metadata(path: String, message: String) -> (r: WriteError)
        ensures
            r.kind matches WriteErrorKind::ReadMetadata { path: p, message: m } && p@ == path@
                && m@ == message@,
    {
        WriteError { kind: WriteErrorKind::ReadMetadata { path, message } }
    }

    /// A `RustFmt` error: the external formatting filter failed with
    /// `message`.
    pub fn rustfmt(message: String) -> (r: WriteError)
        ensures
            r.kind matches WriteErrorKind::RustFmt { message: m } && m@ == message@,
    {
        WriteError { kind: WriteErrorKind::RustFmt { message } }
    }
}

impl WriteErrorKind {
    /// Render this variant's message, per [`write_error_kind_message`].
    pub fn message(&self) -> (r: String)
        ensures
            r@ == write_error_kind_message(*self),
    {
        match self {
            WriteErrorKind::UnsupportedFileType { file_type, path } => String::from_str(
                path.as_str(),
            ).concat(" exists with unsupported file type ").concat(file_type.name().as_str()),
            WriteErrorKind::OpenTarget { path, message: _ } => String::from_str(
                "failed to open/create target file ",
            ).concat(path.as_str()).concat(" for writing"),
            WriteErrorKind::ReadMetadata { path, message: _ } => String::from_str(
                "failed to read the metadata of the target file ",
            ).concat(path.as_str()),
            WriteErrorKind::RustFmt { message: _ } => String::from_str(
                "failed to run rustfmt on the output",
            ),
        }
    }

    /// The underlying cause carried by this variant, where one is carried.
    pub fn cause_message(&self) -> (r: Option<&String>)
        ensures
            (match *self {
                WriteErrorKind::OpenTarget { message, .. } => r matches Some(m) && m@ == message@,
                WriteErrorKind::ReadMetadata { message, .. } => r matches Some(m) && m@
                    == message@,
                WriteErrorKind::RustFmt { message, .. } => r matches Some(m) && m@ == message@,
                WriteErrorKind::UnsupportedFileType { .. } => r is None,
            }),
    {
        match self {
            WriteErrorKind::OpenTarget { message, .. } => Some(message),
            WriteErrorKind::ReadMetadata { message, .. } => Some(message),
            WriteErrorKind::RustFmt { message, .. } => Some(message),
            WriteErrorKind::UnsupportedFileType { .. } => None,
        }
    }
}

} // verus!
