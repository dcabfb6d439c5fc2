//! `.tinyignore` rules.
//!
//! Supported pattern syntax (a small subset of gitignore):
//!
//! - `# comment`  — line is ignored
//! - `dirname`    — skip any directory whose basename matches
//! - `*.ext`      — skip any file whose extension matches
//! - blank lines  — ignored
//!
//! Each scan root's `.tinyignore` is read, then the one in `$HOME`; all of them are
//! merged into one rule set for the whole scan.
use vstd::prelude::*;
use crate::text::names;
use crate::path::{extension, extension_of};
use crate::text::{chars_of, line_bounds, lines, starts_with, str_eq, string_of, trim, trim_bounds};

verus! {

broadcast use vstd::string::group_string_axioms;

/// Directory names and file extensions to skip.
#[derive(Debug, Default, Clone)]
pub struct IgnoreRules {
    dir_names: Vec<String>,
    file_extensions: Vec<String>,
}

/// What one pattern line adds to the rules `(dirs, exts)`.
pub open spec fn merge_line(r: (Seq<Seq<char>>, Seq<Seq<char>>), raw: Seq<char>) -> (
    Seq<Seq<char>>,
    Seq<Seq<char>>,
) {
    let l = trim(raw);
    if l.len() == 0 || l[0] == '#' {
        r
    } else if starts_with(l, seq!['*', '.']) {
        let e = l.skip(2);
        if e.len() > 0 && !r.1.contains(e) {
            (r.0, r.1.push(e))
        } else {
            r
        }
    } else if !r.0.contains(l) {
        (r.0.push(l), r.1)
    } else {
        r
    }
}

/// The rules after the pattern lines `ls`, in order.
pub open spec fn merge_lines(r: (Seq<Seq<char>>, Seq<Seq<char>>), ls: Seq<Seq<char>>) -> (
    Seq<Seq<char>>,
    Seq<Seq<char>>,
)
    decreases ls.len(),
{
    if ls.len() == 0 {
        r
    } else {
        merge_line(merge_lines(r, ls.drop_last()), ls.last())
    }
}

/// The rules after the texts `ts`, in order.
pub open spec fn merge_texts(r: (Seq<Seq<char>>, Seq<Seq<char>>), ts: Seq<Seq<char>>) -> (
    Seq<Seq<char>>,
    Seq<Seq<char>>,
)
    decreases ts.len(),
{
    if ts.len() == 0 {
        r
    } else {
        merge_lines(merge_texts(r, ts.drop_last()), lines(ts.last()))
    }
}


fn contains_name(v: &Vec<String>, s: &str) -> (r: bool)
    ensures
        r == names(v@).contains(s@),
{
    let mut i: usize = 0;
    while i < v.len()
        invariant
            i <= v@.len(),
            forall|k: int| 0 <= k < i ==> (#[trigger] v@[k])@ != s@,
        decreases v@.len() - i,
    {
        if str_eq(v[i].as_str(), s) {
            assert(names(v@)[i as int] == s@);
            return true;
        }
        i += 1;
    }
    proof {
        if names(v@).contains(s@) {
            let k = choose|k: int| 0 <= k < names(v@).len() && names(v@)[k] == s@;
            assert(v@[k]@ == s@);
        }
    }
    false
}

impl IgnoreRules {
    /// The directory names, in the order first seen.
    pub closed spec fn dirs(&self) -> Seq<Seq<char>> {
        names(self.dir_names@)
    }

    /// The file extensions, in the order first seen.
    pub closed spec fn exts(&self) -> Seq<Seq<char>> {
        names(self.file_extensions@)
    }

    pub fn new() -> (r: IgnoreRules)
        ensures
            r.dirs() == Seq::<Seq<char>>::empty(),
            r.exts() == Seq::<Seq<char>>::empty(),
    {
        let r = IgnoreRules { dir_names: Vec::new(), file_extensions: Vec::new() };
        assert(r.dirs() =~= Seq::<Seq<char>>::empty());
        assert(r.exts() =~= Seq::<Seq<char>>::empty());
        r
    }

    /// Merges the pattern texts (the `.tinyignore` of each scan root, then the one
    /// in `$HOME`) into one rule set.
    pub fn load(texts: &[String]) -> (r: IgnoreRules)
        ensures
            (r.dirs(), r.exts()) == merge_texts(
                (Seq::<Seq<char>>::empty(), Seq::<Seq<char>>::empty()),
                names(texts@),
            ),
    {
        let mut rules = IgnoreRules::new();
        let mut i: usize = 0;
        assert(names(texts@).take(0) =~= Seq::<Seq<char>>::empty());
        while i < texts.len()
            invariant
                i <= texts@.len(),
                (rules.dirs(), rules.exts()) == merge_texts(
                    (Seq::<Seq<char>>::empty(), Seq::<Seq<char>>::empty()),
                    names(texts@).take(i as int),
                ),
            decreases texts@.len() - i,
        {
            rules.merge_text(texts[i].as_str());
            assert(names(texts@).take(i + 1).drop_last() =~= names(texts@).take(i as int));
            i += 1;
        }
        assert(names(texts@).take(texts@.len() as int) =~= names(texts@));
        rules
    }

    /// The rules of one pattern text.
    pub fn from_str(text: &str) -> (r: IgnoreRules)
        ensures
            (r.dirs(), r.exts()) == merge_lines(
                (Seq::<Seq<char>>::empty(), Seq::<Seq<char>>::empty()),
                lines(text@),
            ),
    {
        let mut rules = IgnoreRules::new();
        rules.merge_text(text);
        rules
    }

    /// Adds the patterns of `text`: blank lines and `#` comments are skipped,
    /// `*.ext` adds an extension, any other line a directory name; nothing is added
    /// twice.
    pub fn merge_text(&mut self, text: &str)
        ensures
            (final(self).dirs(), final(self).exts()) == merge_lines(
                (old(self).dirs(), old(self).exts()),
                lines(text@),
            ),
    {
        let v = chars_of(text);
        let bounds = line_bounds(&v);
        let ghost ls = lines(v@);
        let ghost start = (self.dirs(), self.exts());
        let mut k: usize = 0;
        assert(ls.take(0) =~= Seq::<Seq<char>>::empty());
        while k < bounds.len()
            invariant
                k <= bounds@.len(),
                bounds@.len() == ls.len(),
                ls == lines(v@),
                v@ == text@,
                forall|j: int|
                    0 <= j < bounds@.len() ==> {
                        &&& (#[trigger] bounds@[j]).0 <= bounds@[j].1 <= v@.len()
                        &&& v@.subrange(bounds@[j].0 as int, bounds@[j].1 as int) == ls[j]
                    },
                (self.dirs(), self.exts()) == merge_lines(start, ls.take(k as int)),
            decreases bounds@.len() - k,
        {
            let (lo, hi) = bounds[k];
            let (a, b) = trim_bounds(&v, lo, hi);
            let line = string_of(&v, a, b);
            assert(line@ == trim(ls[k as int]));
            assert(ls.take(k + 1).drop_last() =~= ls.take(k as int));
            self.add_pattern(line, Ghost(ls[k as int]));
            k += 1;
        }
        assert(ls.take(ls.len() as int) =~= ls);
    }

    /// Adds one pattern line, `line` being the line `raw` trimmed.
    fn add_pattern(&mut self, line: String, Ghost(raw): Ghost<Seq<char>>)
        requires
            line@ == trim(raw),
        ensures
            (final(self).dirs(), final(self).exts()) == merge_line(
                (old(self).dirs(), old(self).exts()),
                raw,
            ),
    {
        let lc = chars_of(line.as_str());
        if lc.len() == 0 || lc[0] == '#' {
            return;
        }
        if lc.len() >= 2 && lc[0] == '*' && lc[1] == '.' {
            assert(starts_with(line@, seq!['*', '.'])) by {
                assert(line@.take(2) =~= seq!['*', '.']);
            }
            let ext = string_of(&lc, 2, lc.len());
            assert(ext@ =~= line@.skip(2));
            if lc.len() > 2 && !contains_name(&self.file_extensions, ext.as_str()) {
                self.file_extensions.push(ext);
                assert(self.exts() =~= old(self).exts().push(ext@));
            }
            return;
        }
        assert(!starts_with(line@, seq!['*', '.'])) by {
            if starts_with(line@, seq!['*', '.']) {
                assert(line@.take(2)[0] == '*');
                assert(line@.take(2)[1] == '.');
            }
        }
        if !contains_name(&self.dir_names, line.as_str()) {
            let ghost l = line@;
            self.dir_names.push(line);
            assert(self.dirs() =~= old(self).dirs().push(l));
        }
    }

    /// Whether a directory with basename `name` is skipped.
    pub fn skip_dir(&self, name: &str) -> (r: bool)
        ensures
            r == self.dirs().contains(name@),
    {
        contains_name(&self.dir_names, name)
    }

    /// Whether a file named `name` is skipped: its extension (case-sensitive) is one
    /// of the patterns; a name without extension is never skipped.
    pub fn skip_file(&self, name: &str) -> (r: bool)
        ensures
            r == match extension(name@) {
                Some(e) => e.len() > 0 && self.exts().contains(e),
                None => false,
            },
    {
        match extension_of(name) {
            None => false,
            Some(e) => {
                let ec = chars_of(e.as_str());
                if ec.len() == 0 {
                    return false;
                }
                contains_name(&self.file_extensions, e.as_str())
            },
        }
    }
}

} // verus!
