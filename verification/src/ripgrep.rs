//! Configuration of the built-in search: the search options with their
//! interplay, the final pattern handed to the regex engines, the plain
//! settings applied to the external matcher, searcher and directory walker,
//! and the listing of the known file types.

use vstd::prelude::*;

verus! {

use crate::printer::Error;

/// Options of the built-in grep: context sizes, matching flags, and the
/// limits applied while walking directories. Flags that contradict one
/// another switch each other off, as the setters state.
pub struct Config {
    pub min_context: u64,
    pub max_context: u64,
    pub no_ignore: bool,
    pub hidden: bool,
    pub case_insensitive: bool,
    pub smart_case: bool,
    pub globs: Vec<String>,
    pub glob_case_insensitive: bool,
    pub fixed_strings: bool,
    pub word_regexp: bool,
    pub follow_symlink: bool,
    pub multiline: bool,
    pub crlf: bool,
    pub multiline_dotall: bool,
    pub mmap: bool,
    pub max_count: Option<u64>,
    pub max_depth: Option<usize>,
    pub max_filesize: Option<u64>,
    pub line_regexp: bool,
    pub pcre2: bool,
    pub types: Vec<String>,
    pub types_not: Vec<String>,
}

impl Default for Config {
    /// Every flag off, no context, no limits, no globs and no type filters.
    fn default() -> (r: Self)
        ensures
            is_default(r),
    {
        Config {
            min_context: 0,
            max_context: 0,
            no_ignore: false,
            hidden: false,
            case_insensitive: false,
            smart_case: false,
            globs: Vec::new(),
            glob_case_insensitive: false,
            fixed_strings: false,
            word_regexp: false,
            follow_symlink: false,
            multiline: false,
            crlf: false,
            multiline_dotall: false,
            mmap: false,
            max_count: None,
            max_depth: None,
            max_filesize: None,
            line_regexp: false,
            pcre2: false,
            types: Vec::new(),
            types_not: Vec::new(),
        }
    }
}

/// Every flag off, no context, no limits, no globs and no type filters.
pub open spec fn is_default(c: Config) -> bool {
    &&& c.min_context == 0
    &&& c.max_context == 0
    &&& !c.no_ignore
    &&& !c.hidden
    &&& !c.case_insensitive
    &&& !c.smart_case
    &&& c.globs@.len() == 0
    &&& !c.glob_case_insensitive
    &&& !c.fixed_strings
    &&& !c.word_regexp
    &&& !c.follow_symlink
    &&& !c.multiline
    &&& !c.crlf
    &&& !c.multiline_dotall
    &&& !c.mmap
    &&& c.max_count is None
    &&& c.max_depth is None
    &&& c.max_filesize is None
    &&& !c.line_regexp
    &&& !c.pcre2
    &&& c.types@.len() == 0
    &&& c.types_not@.len() == 0
}

impl Config {
    /// A default configuration with the given context sizes.
    pub fn new(min: u64, max: u64) -> (r: Self)
        ensures
            r.min_context == min,
            r.max_context == max,
            is_default(Config { min_context: 0, max_context: 0, ..r }),
    {
        let mut config = Self::default();
        config.min_context(min);
        config.max_context(max);
        config
    }

    pub fn min_context(&mut self, num: u64)
        ensures
            *final(self) == (Config { min_context: num, ..*old(self) }),
    {
        self.min_context = num;
    }

    pub fn max_context(&mut self, num: u64)
        ensures
            *final(self) == (Config { max_context: num, ..*old(self) }),
    {
        self.max_context = num;
    }

    pub fn no_ignore(&mut self, yes: bool)
        ensures
            *final(self) == (Config { no_ignore: yes, ..*old(self) }),
    {
        self.no_ignore = yes;
    }

    pub fn hidden(&mut self, yes: bool)
        ensures
            *final(self) == (Config { hidden: yes, ..*old(self) }),
    {
        self.hidden = yes;
    }

    /// Case-insensitive search; switching it on switches smart case off.
    pub fn case_insensitive(&mut self, yes: bool)
        ensures
            *final(self) == (Config {
                case_insensitive: yes,
                smart_case: !yes && old(self).smart_case,
                ..*old(self)
            }),
    {
        self.case_insensitive = yes;
        if yes {
            self.smart_case = false;
        }
    }

    /// Smart case; switching it on switches case-insensitive search off.
    pub fn smart_case(&mut self, yes: bool)
        ensures
            *final(self) == (Config {
                smart_case: yes,
                case_insensitive: !yes && old(self).case_insensitive,
                ..*old(self)
            }),
    {
        self.smart_case = yes;
        if yes {
            self.case_insensitive = false;
        }
    }

    pub fn globs(&mut self, globs: Vec<String>)
        ensures
            *final(self) == (Config { globs: globs, ..*old(self) }),
    {
        self.globs = globs;
    }

    pub fn glob_case_insensitive(&mut self, yes: bool)
        ensures
            *final(self) == (Config { glob_case_insensitive: yes, ..*old(self) }),
    {
        self.glob_case_insensitive = yes;
    }

    /// Treat the pattern as a literal string; switching it on switches the
    /// alternative regex engine off, since the literal is escaped for the
    /// default engine.
    pub fn fixed_strings(&mut self, yes: bool)
        ensures
            *final(self) == (Config {
                fixed_strings: yes,
                pcre2: !yes && old(self).pcre2,
                ..*old(self)
            }),
    {
        self.fixed_strings = yes;
        if yes {
            self.pcre2 = false;
        }
    }

    /// Match only at word boundaries; switching it on switches whole-line
    /// matching off.
    pub fn word_regexp(&mut self, yes: bool)
        ensures
            *final(self) == (Config {
                word_regexp: yes,
                line_regexp: !yes && old(self).line_regexp,
                ..*old(self)
            }),
    {
        self.word_regexp = yes;
        if yes {
            self.line_regexp = false;
        }
    }

    /// Match whole lines only; switching it on switches word matching off.
    pub fn line_regexp(&mut self, yes: bool)
        ensures
            *final(self) == (Config {
                line_regexp: yes,
                word_regexp: !yes && old(self).word_regexp,
                ..*old(self)
            }),
    {
        self.line_regexp = yes;
        if yes {
            self.word_regexp = false;
        }
    }

    pub fn follow_symlink(&mut self, yes: bool)
        ensures
            *final(self) == (Config { follow_symlink: yes, ..*old(self) }),
    {
        self.follow_symlink = yes;
    }

    pub fn multiline(&mut self, yes: bool)
        ensures
            *final(self) == (Config { multiline: yes, ..*old(self) }),
    {
        self.multiline = yes;
    }

    pub fn crlf(&mut self, yes: bool)
        ensures
            *final(self) == (Config { crlf: yes, ..*old(self) }),
    {
        self.crlf = yes;
    }

    pub fn multiline_dotall(&mut self, yes: bool)
        ensures
            *final(self) == (Config { multiline_dotall: yes, ..*old(self) }),
    {
        self.multiline_dotall = yes;
    }

    pub fn mmap(&mut self, yes: bool)
        ensures
            *final(self) == (Config { mmap: yes, ..*old(self) }),
    {
        self.mmap = yes;
    }

    pub fn max_count(&mut self, num: u64)
        ensures
            *final(self) == (Config { max_count: Some(num), ..*old(self) }),
    {
        self.max_count = Some(num);
    }

    pub fn max_depth(&mut self, num: usize)
        ensures
            *final(self) == (Config { max_depth: Some(num), ..*old(self) }),
    {
        self.max_depth = Some(num);
    }

    pub fn max_filesize(&mut self, num: u64)
        ensures
            *final(self) == (Config { max_filesize: Some(num), ..*old(self) }),
    {
        self.max_filesize = Some(num);
    }

    pub fn pcre2(&mut self, yes: bool)
        ensures
            *final(self) == (Config { pcre2: yes, ..*old(self) }),
    {
        self.pcre2 = yes;
    }

    pub fn types(&mut self, types: Vec<String>)
        ensures
            *final(self) == (Config { types: types, ..*old(self) }),
    {
        self.types = types;
    }

    pub fn types_not(&mut self, types: Vec<String>)
        ensures
            *final(self) == (Config { types_not: types, ..*old(self) }),
    {
        self.types_not = types;
    }

    /// The pattern handed to the regex engine: escaped when it is to be taken
    /// literally, and wrapped in line anchors when only whole lines match.
    pub fn build_pattern(&self, pat: &str) -> (r: String)
        ensures
            r@ == final_pattern_spec(pat@, self.fixed_strings, self.line_regexp),
    {
        let base: String = if self.fixed_strings {
            escape_pattern(pat)
        } else {
            pat.to_owned()
        };
        if self.line_regexp {
            let mut s = String::from_str("^(?:");
            s.append(base.as_str());
            s.append(")$");
            s
        } else {
            base
        }
    }

    /// The flags applied to the default regex engine's builder:
    /// multi-line matching is always on; without multiline mode each line is
    /// matched on its own with the newline byte as terminator; in multiline
    /// mode the terminator is dropped and a dot may match newlines if asked.
    pub fn regex_matcher_settings(&self) -> (r: RegexMatcherSettings)
        ensures
            r.case_insensitive == self.case_insensitive,
            r.case_smart == self.smart_case,
            r.word == self.word_regexp,
            r.multi_line,
            r.dot_matches_new_line == (self.multiline && self.multiline_dotall),
            r.crlf == self.crlf,
            r.line_terminator == if self.multiline {
                None::<u8>
            } else {
                Some(10u8)
            },
    {
        RegexMatcherSettings {
            case_insensitive: self.case_insensitive,
            case_smart: self.smart_case,
            word: self.word_regexp,
            multi_line: true,
            dot_matches_new_line: self.multiline && self.multiline_dotall,
            crlf: self.crlf,
            line_terminator: if self.multiline {
                None
            } else {
                Some(10)
            },
        }
    }

    /// The flags applied to the alternative regex engine's builder.
    pub fn pcre2_matcher_settings(&self) -> (r: Pcre2MatcherSettings)
        ensures
            r.caseless == self.case_insensitive,
            r.case_smart == self.smart_case,
            r.word == self.word_regexp,
            r.multi_line,
            r.crlf == self.crlf,
            r.dotall == (self.multiline && self.multiline_dotall),
    {
        Pcre2MatcherSettings {
            caseless: self.case_insensitive,
            case_smart: self.smart_case,
            word: self.word_regexp,
            multi_line: true,
            crlf: self.crlf,
            dotall: self.multiline && self.multiline_dotall,
        }
    }

    /// The flags applied to the searcher: line numbers are
    /// always reported, binary files are quit on the first NUL byte, memory
    /// maps only when asked, and a CRLF terminator when asked.
    pub fn searcher_settings(&self) -> (r: SearcherSettings)
        ensures
            r.line_number,
            r.multi_line == self.multiline,
            r.mmap == self.mmap,
            r.crlf_line_terminator == self.crlf,
    {
        SearcherSettings {
            line_number: true,
            multi_line: self.multiline,
            mmap: self.mmap,
            crlf_line_terminator: self.crlf,
        }
    }

    /// The flags applied to the directory walker: hidden entries
    /// and every kind of ignore file are honoured unless switched off, a
    /// repository is never required, and the extra ignore file is read only
    /// while ignore files are honoured at all.
    pub fn walker_settings(&self) -> (r: WalkerSettings)
        ensures
            r.skip_hidden == !self.hidden,
            r.read_ignore_files == !self.no_ignore,
            !r.require_git,
            r.follow_links == self.follow_symlink,
            r.max_depth == self.max_depth,
            r.max_filesize == self.max_filesize,
            r.custom_ignore_filename == !self.no_ignore,
            r.glob_case_insensitive == self.glob_case_insensitive,
    {
        WalkerSettings {
            skip_hidden: !self.hidden,
            read_ignore_files: !self.no_ignore,
            require_git: false,
            follow_links: self.follow_symlink,
            max_depth: self.max_depth,
            max_filesize: self.max_filesize,
            custom_ignore_filename: !self.no_ignore,
            glob_case_insensitive: self.glob_case_insensitive,
        }
    }

    /// List the known file types, one line per type: its name, a colon, and
    /// its globs separated by commas. Fails exactly when a configured type
    /// filter names an unknown type; with no type filters it succeeds.
    pub fn print_types(&self) -> (r: Result<String, Error>)
        ensures
            (self.types@.len() == 0 && self.types_not@.len() == 0) ==> r is Ok,
            r matches Ok(s) ==> exists|defs: Seq<(Seq<char>, Seq<Seq<char>>)>|
                wf_type_defs(defs) && s@ == type_listing(defs),
            r matches Err(e) ==> e == Error::UnknownFileType,
    {
        let defs = match type_definitions(&self.types, &self.types_not) {
            Ok(defs) => defs,
            Err(e) => {
                return Err(e);
            },
        };
        Ok(format_type_definitions(&defs))
    }
}

/// The flags set on the default regex engine's builder.
pub struct RegexMatcherSettings {
    pub case_insensitive: bool,
    pub case_smart: bool,
    pub word: bool,
    pub multi_line: bool,
    pub dot_matches_new_line: bool,
    pub crlf: bool,
    /// The byte that ends a line, if line-oriented searching is on.
    pub line_terminator: Option<u8>,
}

/// The flags set on the alternative regex engine's builder.
pub struct Pcre2MatcherSettings {
    pub caseless: bool,
    pub case_smart: bool,
    pub word: bool,
    pub multi_line: bool,
    pub crlf: bool,
    pub dotall: bool,
}

/// The flags set on the searcher.
pub struct SearcherSettings {
    pub line_number: bool,
    pub multi_line: bool,
    pub mmap: bool,
    pub crlf_line_terminator: bool,
}

/// The flags set on the directory walker.
pub struct WalkerSettings {
    pub skip_hidden: bool,
    pub read_ignore_files: bool,
    pub require_git: bool,
    pub follow_links: bool,
    pub max_depth: Option<usize>,
    pub max_filesize: Option<u64>,
    pub custom_ignore_filename: bool,
    pub glob_case_insensitive: bool,
}

/// What escaping a pattern for the default regex engine returns.
pub uninterp spec fn regex_escaped(s: Seq<char>) -> Seq<char>;

/// Relies on regex::escape: it escapes every regular-expression meta
/// character in the pattern, and its result depends on the pattern's
/// characters alone.
#[verifier::external_body]
fn escape_pattern(pat: &str) -> (r: String)
    ensures
        r@ == regex_escaped(pat@),
{
    regex::escape(pat)
}

/// The final pattern handed to a regex engine.
pub open spec fn final_pattern_spec(pat: Seq<char>, fixed_strings: bool, line_regexp: bool) -> Seq<
    char,
> {
    let base = if fixed_strings {
        regex_escaped(pat)
    } else {
        pat
    };
    if line_regexp {
        "^(?:"@ + base + ")$"@
    } else {
        base
    }
}

/// A usable file type table: every type has a name and at least one glob.
pub open spec fn wf_type_defs(defs: Seq<(Seq<char>, Seq<Seq<char>>)>) -> bool {
    forall|i: int|
        0 <= i < defs.len() ==> (#[trigger] defs[i]).0.len() >= 1 && defs[i].1.len() >= 1
}

/// The file type definitions as plain values.
pub open spec fn type_defs_view(defs: Seq<(String, Vec<String>)>) -> Seq<(Seq<char>, Seq<Seq<char>>)> {
    defs.map_values(|d: (String, Vec<String>)| (d.0@, d.1@.map_values(|g: String| g@)))
}

/// Relies on ignore::types::TypesBuilder: `add_defaults` installs the
/// built-in file type table, whose every entry carries a nonempty name and at
/// least one glob; `select` and `negate` record the configured type filters;
/// `build` fails exactly when a filter names an unknown type, and always
/// succeeds without filters; `definitions` returns the table sorted by name.
#[verifier::external_body]
fn type_definitions(types: &Vec<String>, types_not: &Vec<String>) -> (r: Result<
    Vec<(String, Vec<String>)>,
    Error,
>)
    ensures
        (types@.len() == 0 && types_not@.len() == 0) ==> r is Ok,
        r matches Ok(defs) ==> wf_type_defs(type_defs_view(defs@)),
        r matches Err(e) ==> e == Error::UnknownFileType,
{
    let mut builder = ignore::types::TypesBuilder::new();
    builder.add_defaults();
    types.iter().for_each(|t| {
        builder.select(t);
    });
    types_not.iter().for_each(|t| {
        builder.negate(t);
    });
    match builder.build() {
        Ok(ts) => Ok(ts.definitions().iter().map(|d| (d.name().to_string(), d.globs().to_vec())).collect()),
        Err(_) => Err(Error::UnknownFileType),
    }
}

/// One line of the type listing: the name, a colon, and the globs separated
/// by commas.
pub open spec fn type_line(name: Seq<char>, globs: Seq<Seq<char>>) -> Seq<char>
    recommends
        globs.len() >= 1,
{
    name + ": "@ + globs_joined(globs) + "\n"@
}

/// The globs separated by `", "`.
pub open spec fn globs_joined(globs: Seq<Seq<char>>) -> Seq<char>
    decreases globs.len(),
{
    if globs.len() == 0 {
        Seq::<char>::empty()
    } else if globs.len() == 1 {
        globs[0]
    } else {
        globs_joined(globs.drop_last()) + ", "@ + globs.last()
    }
}

/// The whole type listing, one line per definition.
pub open spec fn type_listing(defs: Seq<(Seq<char>, Seq<Seq<char>>)>) -> Seq<char>
    decreases defs.len(),
{
    if defs.len() == 0 {
        Seq::<char>::empty()
    } else {
        type_listing(defs.drop_last()) + type_line(defs.last().0, defs.last().1)
    }
}

/// Format the file type definitions, one line per type.
pub fn format_type_definitions(defs: &Vec<(String, Vec<String>)>) -> (r: String)
    ensures
        r@ == type_listing(type_defs_view(defs@)),
{
    let mut out = String::new();
    let mut i: usize = 0;
    proof {
        assert(type_defs_view(defs@).take(0) =~= Seq::<(Seq<char>, Seq<Seq<char>>)>::empty());
        assert(out@ =~= type_listing(type_defs_view(defs@).take(0)));
    }
    while i < defs.len()
        invariant
            i <= defs@.len(),
            out@ == type_listing(type_defs_view(defs@).take(i as int)),
        decreases defs@.len() - i,
    {
        let ghost out0 = out@;
        let d = &defs[i];
        out.append(d.0.as_str());
        out.append(": ");
        let globs = &d.1;
        let mut j: usize = 0;
        proof {
            assert(d.1@.map_values(|g: String| g@).take(0) =~= Seq::<Seq<char>>::empty());
            assert(globs_joined(Seq::<Seq<char>>::empty()) == Seq::<char>::empty());
            assert(out@ =~= out0 + d.0@ + ": "@ + globs_joined(
                d.1@.map_values(|g: String| g@).take(0),
            ));
        }
        while j < globs.len()
            invariant
                i < defs@.len(),
                d == &defs@[i as int],
                globs == &defs@[i as int].1,
                j <= globs@.len(),
                out@ == out0 + d.0@ + ": "@ + globs_joined(
                    d.1@.map_values(|g: String| g@).take(j as int),
                ),
            decreases globs@.len() - j,
        {
            if j > 0 {
                out.append(", ");
            }
            out.append(globs[j].as_str());
            j = j + 1;
            proof {
                let gs = d.1@.map_values(|g: String| g@);
                assert(gs.take(j as int).drop_last() =~= gs.take(j - 1));
                assert(gs.take(j as int).last() == gs[j - 1]);
                assert(gs[j - 1] == defs@[i as int].1@[j - 1]@);
                if j == 1 {
                    assert(globs_joined(gs.take(1)) == gs[0]);
                    assert(out@ =~= out0 + d.0@ + ": "@ + globs_joined(gs.take(j as int)));
                } else {
                    assert(globs_joined(gs.take(j as int)) == globs_joined(gs.take(j - 1)) + ", "@
                        + gs[j - 1]);
                    assert(out@ =~= out0 + d.0@ + ": "@ + globs_joined(gs.take(j as int)));
                }
            }
        }
        out.append("\n");
        i = i + 1;
        proof {
            let dv = type_defs_view(defs@);
            assert(d.1@.map_values(|g: String| g@).take(globs@.len() as int) =~= d.1@.map_values(
                |g: String| g@,
            ));
            assert(dv.take(i as int).drop_last() =~= dv.take(i - 1));
            assert(dv.take(i as int).last() == dv[i - 1]);
            assert(dv[i - 1] == (defs@[i - 1].0@, defs@[i - 1].1@.map_values(|g: String| g@)));
            assert(type_listing(dv.take(i as int)) == type_listing(dv.take(i - 1)) + type_line(
                dv[i - 1].0,
                dv[i - 1].1,
            ));
            assert(out@ =~= type_listing(dv.take(i as int)));
        }
    }
    proof {
        assert(type_defs_view(defs@).take(defs@.len() as int) =~= type_defs_view(defs@));
    }
    out
}

} // verus!
