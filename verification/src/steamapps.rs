//! Steam library bookkeeping over parsed manifests: which files of a library
//! directory are app manifests, which library roots a library-folders
//! manifest lists, and the collection of parsed manifests itself.
//!
//! Reading directories and files is left to the caller; everything here works
//! on names, texts and parsed trees.
use vstd::prelude::*;
use vstd::utf8::encode_utf8;

use crate::acf::Manifest;
use crate::acf::ParseError;
use crate::acf::ParseErrorKind;
use crate::acf::ValueExpression;
use crate::grammar::Parsed;
use crate::grammar::spec_vdf;

verus! {

/// Whether the glob pattern accepts the name, under the glob crate's default
/// matching options and the build target's path-separator convention.
/// Within one build the outcome depends on the two strings alone.
pub uninterp spec fn glob_accepts(pattern: Seq<char>, name: Seq<char>) -> bool;

/// A pattern with no `[` and no two adjacent `*`: such a pattern always
/// compiles, since `glob::Pattern::new` rejects only bracket ranges it cannot
/// parse and `*` runs that do not form a lone `**` path component.
pub open spec fn simple_glob(pattern: Seq<char>) -> bool {
    (forall|i: int| 0 <= i < pattern.len() ==> pattern[i] != '[') && (forall|i: int|
        0 <= i && i + 1 < pattern.len() ==> !(#[trigger] pattern[i] == '*' && pattern[i + 1]
            == '*'))
}

/// Relies on `glob::Pattern::new` and `glob::Pattern::matches`: compiling a
/// pattern and testing one name against it is a function of the two strings
/// alone, and `new` fails only on a bracket range it cannot parse or on a
/// `*` run that does not form a lone `**` path component.
#[verifier::external_body]
fn glob_match(pattern: &str, name: &str) -> (r: Option<bool>)
    ensures
        r matches Some(b) ==> b == glob_accepts(pattern@, name@),
        simple_glob(pattern@) ==> r is Some,
{
    match glob::Pattern::new(pattern) {
        Ok(p) => Some(p.matches(name)),
        Err(_) => None,
    }
}

/// The file names of `names` that `pattern` accepts, in order.
pub open spec fn spec_matching_names(pattern: Seq<char>, names: Seq<String>) -> Seq<String>
    decreases names.len(),
{
    if names.len() == 0 {
        Seq::empty()
    } else {
        let rest = spec_matching_names(pattern, names.drop_last());
        if glob_accepts(pattern, names.last()@) {
            rest.push(names.last())
        } else {
            rest
        }
    }
}

/// The texts of the path-valued entries, in order: in a library-folders
/// manifest these are the library roots.
pub open spec fn spec_path_values(s: Seq<(String, ValueExpression)>) -> Seq<String>
    decreases s.len(),
{
    if s.len() == 0 {
        Seq::empty()
    } else {
        let rest = spec_path_values(s.drop_last());
        match s.last().1 {
            ValueExpression::Path(p) => rest.push(p.0),
            _ => rest,
        }
    }
}

/// One Steam library directory: the manifests loaded from it so far, and
/// where it lives.
#[derive(Debug)]
pub struct SteamLibrary {
    pub manifests: Vec<Manifest>,
    pub path: String,
}

impl SteamLibrary {
    /// Where this library lives.
    pub open spec fn spec_path(self) -> Seq<char> {
        self.path@
    }

    /// An empty library at the given directory.
    pub fn new(library_path: &str) -> (r: SteamLibrary)
        ensures
            r.manifests@.len() == 0,
            r.spec_path() == library_path@,
    {
        SteamLibrary { manifests: Vec::new(), path: library_path.to_owned() }
    }

    /// Where this library lives.
    pub fn path(&self) -> (r: &str)
        ensures
            r@ == self.spec_path(),
    {
        self.path.as_str()
    }

    /// The library roots a library-folders manifest lists: the text of every
    /// path-valued entry of its bundle, in order.
    pub fn find_libraries(library_vdf: &Manifest) -> (r: Vec<String>)
        ensures
            r@ == spec_path_values(library_vdf.bundle.0@),
    {
        let mut out: Vec<String> = Vec::new();
        let mut i: usize = 0;
        proof {
            assert(library_vdf.bundle.0@.subrange(0, 0) =~= Seq::<(
                String,
                ValueExpression,
            )>::empty());
        }
        while i < library_vdf.bundle.0.len()
            invariant
                i <= library_vdf.bundle.0@.len(),
                out@ == spec_path_values(library_vdf.bundle.0@.subrange(0, i as int)),
            decreases library_vdf.bundle.0@.len() - i,
        {
            proof {
                let pre = library_vdf.bundle.0@.subrange(0, i + 1);
                assert(pre.drop_last() =~= library_vdf.bundle.0@.subrange(0, i as int));
                assert(pre.last() == library_vdf.bundle.0@[i as int]);
            }
            match &library_vdf.bundle.0[i].1 {
                ValueExpression::Path(p) => {
                    out.push(p.0.clone());
                },
                _ => {},
            }
            i = i + 1;
        }
        proof {
            assert(library_vdf.bundle.0@.subrange(0, library_vdf.bundle.0@.len() as int)
                =~= library_vdf.bundle.0@);
        }
        out
    }

    /// The names among `names` that are app-manifest files: those the
    /// `*.acf` pattern accepts, in order.
    pub fn select_manifest_files(names: &Vec<String>) -> (r: Vec<String>)
        ensures
            r@ == spec_matching_names("*.acf"@, names@),
    {
        proof {
            reveal_strlit("*.acf");
            assert(simple_glob("*.acf"@)) by {
                assert("*.acf"@.len() == 5);
                assert("*.acf"@[0] == '*');
                assert("*.acf"@[1] == '.');
                assert("*.acf"@[2] == 'a');
                assert("*.acf"@[3] == 'c');
                assert("*.acf"@[4] == 'f');
            }
        }
        let mut out: Vec<String> = Vec::new();
        let mut i: usize = 0;
        proof {
            assert(names@.subrange(0, 0) =~= Seq::<String>::empty());
        }
        while i < names.len()
            invariant
                i <= names@.len(),
                simple_glob("*.acf"@),
                out@ == spec_matching_names("*.acf"@, names@.subrange(0, i as int)),
            decreases names@.len() - i,
        {
            proof {
                let pre = names@.subrange(0, i + 1);
                assert(pre.drop_last() =~= names@.subrange(0, i as int));
                assert(pre.last() == names@[i as int]);
            }
            match glob_match("*.acf", names[i].as_str()) {
                Some(true) => {
                    out.push(names[i].clone());
                },
                Some(false) => {},
                None => {
                    // unreachable: the pattern has no bracket and no `**`
                },
            }
            i = i + 1;
        }
        proof {
            assert(names@.subrange(0, names@.len() as int) =~= names@);
        }
        out
    }

    /// Parses each text as a manifest and appends the results to this
    /// library, in order.  The first text that does not parse aborts the
    /// load with its error, and the library is left as it was.  On success
    /// the result counts the manifests the library then holds.
    pub fn load_manifests(&mut self, texts: &Vec<String>) -> (r: Result<usize, ParseError>)
        ensures
            match r {
                Ok(n) => {
                    &&& final(self).manifests@.len() == old(self).manifests@.len() + texts@.len()
                    &&& n == final(self).manifests@.len()
                    &&& final(self).manifests@.subrange(0, old(self).manifests@.len() as int)
                        == old(self).manifests@
                    &&& forall|k: int|
                        0 <= k < texts@.len() ==> (#[trigger] spec_vdf(
                            encode_utf8(texts@[k]@),
                        ) matches Parsed::Found(m, q) && final(self).manifests@[old(
                            self,
                        ).manifests@.len() + k].rep() == m)
                },
                Err(e) => {
                    &&& *final(self) == *old(self)
                    &&& exists|k: int|
                        {
                            &&& 0 <= k < texts@.len()
                            &&& !(#[trigger] spec_vdf(
                                encode_utf8(texts@[k]@),
                            ) is Found)
                            &&& (forall|j: int|
                                0 <= j < k ==> #[trigger] spec_vdf(
                                    encode_utf8(texts@[j]@),
                                ) is Found)
                            &&& e.kind == (if spec_vdf(encode_utf8(texts@[k]@))
                                is Overflow {
                                ParseErrorKind::IntegerOverflow
                            } else {
                                ParseErrorKind::Syntax
                            })
                        }
                },
            },
            final(self).spec_path() == old(self).spec_path(),
    {
        let mut parsed: Vec<Manifest> = Vec::new();
        let mut i: usize = 0;
        while i < texts.len()
            invariant
                i <= texts@.len(),
                parsed@.len() == i,
                forall|k: int|
                    0 <= k < i ==> (#[trigger] spec_vdf(
                        encode_utf8(texts@[k]@),
                    ) matches Parsed::Found(m, q) && parsed@[k].rep() == m),
            decreases texts@.len() - i,
        {
            match crate::acf::parse(texts[i].as_str()) {
                Ok(m) => {
                    parsed.push(m);
                },
                Err(e) => {
                    return Err(e);
                },
            }
            i = i + 1;
        }
        let ghost before = self.manifests@;
        self.manifests.append(&mut parsed);
        proof {
            assert(final(self).manifests@.subrange(0, before.len() as int) =~= before);
        }
        Ok(self.manifests.len())
    }
}

} // verus!
