//! Rules that map files to programs: how they are written in the
//! configuration file, and how the first rule that applies is found.
use vstd::prelude::*;

use crate::error::{opt_view, Error, ErrorView};
use crate::mime::{MimeType, MimeView};
use crate::text::{
    all_key_chars, chars_of, count_before, eq_ignore_ascii_case, eq_ignore_case, find_char,
    is_key_char, same_text, split_words, words,
};

verus! {

broadcast use vstd::string::group_string_axioms;

/// The mathematical value of a MIME key: a supertype, and a subtype where
/// `None` stands for the wildcard `*`.
pub struct KeyView {
    pub supertype: Seq<char>,
    pub subtype: Option<Seq<char>>,
}

/// The mathematical value of a rule.
pub enum MappingView {
    Extension { extension: Seq<char>, program: Seq<char> },
    Mime { key: KeyView, program: Seq<char> },
}

/// What the key `s` of a `mime` rule stands for, or nothing where it is
/// malformed: it splits at its first `/` into two non-empty parts made of
/// key characters, the second of which may also be `*`.
pub open spec fn parse_key(s: Seq<char>) -> Option<KeyView> {
    let k = count_before(s, '/');
    let sup = s.take(k as int);
    let sub = s.skip(k + 1 as int);
    if k == s.len() || sup.len() == 0 || sub.len() == 0 || !all_key_chars(sup) {
        None
    } else if sub == seq!['*'] {
        Some(KeyView { supertype: sup, subtype: None })
    } else if all_key_chars(sub) {
        Some(KeyView { supertype: sup, subtype: Some(sub) })
    } else {
        None
    }
}

/// Whether the key `k` matches the MIME type `m`; case does not count.
pub open spec fn key_matches(k: KeyView, m: MimeView) -> bool {
    &&& eq_ignore_case(k.supertype, m.supertype)
    &&& match k.subtype {
        Some(sub) => eq_ignore_case(sub, m.subtype),
        None => true,
    }
}

/// The program of rule `r` where it applies to a file of type `m` and
/// extension `ext`.
pub open spec fn mapping_program(r: MappingView, m: MimeView, ext: Option<Seq<char>>) -> Option<
    Seq<char>,
> {
    match r {
        MappingView::Extension { extension, program } => if ext == Some(extension) {
            Some(program)
        } else {
            None
        },
        MappingView::Mime { key, program } => if key_matches(key, m) {
            Some(program)
        } else {
            None
        },
    }
}

/// The program of the first of `rules` that applies, if any does.
pub open spec fn resolve(rules: Seq<MappingView>, m: MimeView, ext: Option<Seq<char>>) -> Option<
    Seq<char>,
>
    decreases rules.len(),
{
    if rules.len() == 0 {
        None
    } else {
        match mapping_program(rules[0], m, ext) {
            Some(p) => Some(p),
            None => resolve(rules.drop_first(), m, ext),
        }
    }
}

/// The part of a line before its first `#`.
pub open spec fn strip_comment(line: Seq<char>) -> Seq<char> {
    line.take(count_before(line, '#') as int)
}

/// What line number `n` of a configuration file says: no rule, one rule, or
/// why it is not a rule.
pub open spec fn parse_line(line: Seq<char>, n: int) -> Result<Option<MappingView>, ErrorView> {
    let t = words(strip_comment(line));
    if t.len() == 0 {
        Ok(None)
    } else if t.len() != 3 {
        Err(ErrorView::InvalidLine(n, line))
    } else if t[0] == seq!['e', 'x', 't'] {
        Ok(Some(MappingView::Extension { extension: t[1], program: t[2] }))
    } else if t[0] == seq!['m', 'i', 'm', 'e'] {
        match parse_key(t[1]) {
            Some(key) => Ok(Some(MappingView::Mime { key, program: t[2] })),
            None => Err(ErrorView::InvalidMimeType(t[1])),
        }
    } else {
        Err(ErrorView::InvalidLine(n, line))
    }
}

/// The rules of the first `k` lines, in order, or the first failure among
/// them; `None` stands for a line that could not be read.
pub open spec fn parse_prefix(lines: Seq<Option<Seq<char>>>, k: nat) -> Result<
    Seq<MappingView>,
    ErrorView,
>
    decreases k,
{
    if k == 0 {
        Ok(seq![])
    } else {
        match parse_prefix(lines, (k - 1) as nat) {
            Err(e) => Err(e),
            Ok(rules) => match lines[k - 1] {
                None => Err(ErrorView::LineReadError(k as int)),
                Some(line) => match parse_line(line, k as int) {
                    Err(e) => Err(e),
                    Ok(None) => Ok(rules),
                    Ok(Some(r)) => Ok(rules.push(r)),
                },
            },
        }
    }
}

/// The rules of a whole configuration file, or why it is invalid.
pub open spec fn parse_config(lines: Seq<Option<Seq<char>>>) -> Result<
    Seq<MappingView>,
    ErrorView,
> {
    parse_prefix(lines, lines.len())
}

/// The view of the lines of a file.
pub open spec fn lines_view(lines: Seq<Option<String>>) -> Seq<Option<Seq<char>>> {
    lines.map_values(|l: Option<String>| opt_view(l))
}

/// The view of a borrowed optional text.
pub open spec fn opt_str_view(o: Option<&str>) -> Option<Seq<char>> {
    match o {
        Some(s) => Some(s@),
        None => None,
    }
}

#[derive(Debug)]
enum MimeSubtypeKey {
    Specific(String),
    Wildcard,
}

/// A configured MIME type pattern such as `text/plain` or `image/*`.
#[derive(Debug)]
pub struct MimeTypeKey {
    supertype: String,
    subtype: MimeSubtypeKey,
}

impl View for MimeTypeKey {
    type V = KeyView;

    closed spec fn view(&self) -> KeyView {
        KeyView {
            supertype: self.supertype@,
            subtype: match self.subtype {
                MimeSubtypeKey::Specific(s) => Some(s@),
                MimeSubtypeKey::Wildcard => None,
            },
        }
    }
}

fn key_chars_only(s: &str) -> (r: bool)
    ensures
        r == all_key_chars(s@),
{
    let v = chars_of(s);
    let mut i: usize = 0;
    while i < v.len()
        invariant
            v@ == s@,
            i <= v.len(),
            forall|j: int| 0 <= j < i ==> is_key_char(#[trigger] v@[j]),
        decreases v.len() - i,
    {
        let c = v[i];
        let u = c as u32;
        let ok = (0x30 <= u && u <= 0x39) || (0x41 <= u && u <= 0x5a) || (0x61 <= u && u <= 0x7a)
            || c == '+' || c == '-' || c == '.' || c == '_';
        if !ok {
            return false;
        }
        i += 1;
    }
    true
}

impl MimeTypeKey {
    /// Reads a key such as `text/plain` or `image/*`.
    pub fn from_str(s: &str) -> (r: Result<MimeTypeKey, Error>)
        ensures
            match r {
                Ok(k) => parse_key(s@) == Some(k@),
                Err(e) => parse_key(s@) is None && e@ == ErrorView::InvalidMimeType(s@),
            },
    {
        let v = chars_of(s);
        let n = v.len();
        let k = find_char(&v, '/');
        if k == n {
            return Err(Error::InvalidMimeType(s.to_owned()));
        }
        let sup = s.substring_char(0, k);
        let sub = s.substring_char(k + 1, n);
        proof {
            assert(sup@ =~= s@.take(k as int));
            assert(sub@ =~= s@.skip(k + 1 as int));
        }
        if k == 0 || k + 1 == n || !key_chars_only(sup) {
            return Err(Error::InvalidMimeType(s.to_owned()));
        }
        let subtype = if same_text(sub, "*") {
            proof {
                reveal_strlit("*");
                assert("*"@ =~= seq!['*']);
            }
            MimeSubtypeKey::Wildcard
        } else {
            proof {
                reveal_strlit("*");
                assert("*"@ =~= seq!['*']);
            }
            if !key_chars_only(sub) {
                return Err(Error::InvalidMimeType(s.to_owned()));
            }
            MimeSubtypeKey::Specific(sub.to_owned())
        };
        let key = MimeTypeKey { supertype: sup.to_owned(), subtype };
        Ok(key)
    }

    /// Whether a detected MIME type matches this key: the supertypes are
    /// equal but for case, and so are the subtypes unless the key has `*`.
    pub fn matches(&self, mime: &MimeType) -> (r: bool)
        ensures
            r == key_matches(self@, mime@),
    {
        eq_ignore_ascii_case(self.supertype.as_str(), mime.supertype()) && match &self.subtype {
            MimeSubtypeKey::Specific(sub) => eq_ignore_ascii_case(sub.as_str(), mime.subtype()),
            MimeSubtypeKey::Wildcard => true,
        }
    }

    /// The supertype of the key, as configured.
    pub fn supertype(&self) -> (r: &str)
        ensures
            r@ == self@.supertype,
    {
        self.supertype.as_str()
    }

    /// The subtype of the key as configured, or `None` for `*`.
    pub fn subtype(&self) -> (r: Option<&str>)
        ensures
            opt_str_view(r) == self@.subtype,
    {
        match &self.subtype {
            MimeSubtypeKey::Specific(sub) => Some(sub.as_str()),
            MimeSubtypeKey::Wildcard => None,
        }
    }
}

/// One rule of the configuration: a file extension or a MIME key, and the
/// program that opens the files it applies to.
#[derive(Debug)]
pub enum Mapping {
    /// Applies to files whose extension is exactly `extension`.
    Extension { extension: String, program: String },
    /// Applies to files whose MIME type matches `mime`.
    Mime { mime: MimeTypeKey, program: String },
}

impl View for Mapping {
    type V = MappingView;

    open spec fn view(&self) -> MappingView {
        match self {
            Mapping::Extension { extension, program } => MappingView::Extension {
                extension: extension@,
                program: program@,
            },
            Mapping::Mime { mime, program } => MappingView::Mime { key: mime@, program: program@ },
        }
    }
}

impl Mapping {
    /// The program of this rule where it applies to a file of type `mime`
    /// and extension `extension`, else `None`.
    pub fn get_program(&self, mime: &MimeType, extension: Option<&str>) -> (r: Option<&str>)
        ensures
            opt_str_view(r) == mapping_program(self@, mime@, opt_str_view(extension)),
    {
        match self {
            Mapping::Extension { extension: own, program } => match extension {
                Some(e) => if same_text(own.as_str(), e) {
                    Some(program.as_str())
                } else {
                    None
                },
                None => None,
            },
            Mapping::Mime { mime: key, program } => if key.matches(mime) {
                Some(program.as_str())
            } else {
                None
            },
        }
    }

    /// Reads line number `number` of a configuration file: a comment from
    /// `#` on is dropped, a blank line gives no rule, and the rest must be
    /// `ext <extension> <program>` or `mime <key> <program>`.
    pub fn parse_line(line: &str, number: usize) -> (r: Result<Option<Mapping>, Error>)
        ensures
            match r {
                Ok(Some(m)) => parse_line(line@, number as int) == Ok::<
                    Option<MappingView>,
                    ErrorView,
                >(Some(m@)),
                Ok(None) => parse_line(line@, number as int) == Ok::<
                    Option<MappingView>,
                    ErrorView,
                >(None),
                Err(e) => parse_line(line@, number as int) == Err::<Option<MappingView>, ErrorView>(
                    e@,
                ),
            },
    {
        let v = chars_of(line);
        let cut = find_char(&v, '#');
        let body = line.substring_char(0, cut);
        let t = split_words(body);
        proof {
            assert(body@ =~= strip_comment(line@));
            assert(t@.len() == words(body@).len());
        }
        if t.len() == 0 {
            return Ok(None);
        }
        if t.len() != 3 {
            return Err(Error::InvalidLine(number, line.to_owned()));
        }
        proof {
            assert(t@[0]@ == words(body@)[0]);
            assert(t@[1]@ == words(body@)[1]);
            assert(t@[2]@ == words(body@)[2]);
            reveal_strlit("ext");
            reveal_strlit("mime");
            assert("ext"@ =~= seq!['e', 'x', 't']);
            assert("mime"@ =~= seq!['m', 'i', 'm', 'e']);
        }
        let program = t[2].clone();
        if same_text(t[0].as_str(), "ext") {
            Ok(Some(Mapping::Extension { extension: t[1].clone(), program }))
        } else if same_text(t[0].as_str(), "mime") {
            match MimeTypeKey::from_str(t[1].as_str()) {
                Ok(key) => Ok(Some(Mapping::Mime { mime: key, program })),
                Err(e) => Err(e),
            }
        } else {
            Err(Error::InvalidLine(number, line.to_owned()))
        }
    }
}

/// The rules of a configuration file, in the order of its lines.
#[derive(Debug)]
pub struct Config {
    mappings: Vec<Mapping>,
}

impl View for Config {
    type V = Seq<MappingView>;

    closed spec fn view(&self) -> Seq<MappingView> {
        self.mappings@.map_values(|m: Mapping| m@)
    }
}

impl Config {
    /// Once a prefix of the lines fails, every longer prefix fails the same way.
    proof fn lemma_failure_stays(ls: Seq<Option<Seq<char>>>, k: nat, m: nat)
        requires
            k <= m,
            parse_prefix(ls, k) is Err,
        ensures
            parse_prefix(ls, m) == parse_prefix(ls, k),
        decreases m - k,
    {
        if k < m {
            Self::lemma_failure_stays(ls, k, (m - 1) as nat);
        }
    }

    /// Reads the rules from the lines of a configuration file, numbered from
    /// 1; `None` stands for a line that could not be read. The first line
    /// that fails fails the whole file.
    pub fn parse(lines: &Vec<Option<String>>) -> (r: Result<Config, Error>)
        ensures
            match r {
                Ok(c) => parse_config(lines_view(lines@)) == Ok::<Seq<MappingView>, ErrorView>(
                    c@,
                ),
                Err(e) => parse_config(lines_view(lines@)) == Err::<Seq<MappingView>, ErrorView>(
                    e@,
                ),
            },
    {
        let ghost ls = lines_view(lines@);
        let mut mappings: Vec<Mapping> = Vec::new();
        let mut i: usize = 0;
        assert(mappings@.map_values(|m: Mapping| m@) =~= Seq::<MappingView>::empty());
        while i < lines.len()
            invariant
                ls == lines_view(lines@),
                i <= lines.len(),
                parse_prefix(ls, i as nat) == Ok::<Seq<MappingView>, ErrorView>(
                    mappings@.map_values(|m: Mapping| m@),
                ),
            decreases lines.len() - i,
        {
            assert(ls[i as int] == opt_view(lines@[i as int]));
            match &lines[i] {
                None => {
                    proof {
                        Self::lemma_failure_stays(ls, (i + 1) as nat, ls.len());
                    }
                    return Err(Error::LineReadError(i + 1));
                },
                Some(line) => {
                    match Mapping::parse_line(line.as_str(), i + 1) {
                        Err(e) => {
                            proof {
                                Self::lemma_failure_stays(ls, (i + 1) as nat, ls.len());
                            }
                            return Err(e);
                        },
                        Ok(None) => {},
                        Ok(Some(m)) => {
                            let ghost before = mappings@.map_values(|m: Mapping| m@);
                            mappings.push(m);
                            assert(mappings@.map_values(|m: Mapping| m@) =~= before.push(m@));
                        },
                    }
                },
            }
            i += 1;
        }
        assert(ls.len() == lines.len());
        Ok(Config { mappings })
    }

    /// The rules, in order.
    pub fn mappings(&self) -> (r: &Vec<Mapping>)
        ensures
            r@.map_values(|m: Mapping| m@) == self@,
    {
        &self.mappings
    }

    /// The program of the first rule that applies to a file of type `mime`
    /// and extension `extension`; where none does, `NoProgramFound` with both.
    pub fn resolve(&self, mime: &MimeType, extension: Option<&str>) -> (r: Result<&str, Error>)
        ensures
            match r {
                Ok(p) => resolve(self@, mime@, opt_str_view(extension)) == Some(p@),
                Err(e) => resolve(self@, mime@, opt_str_view(extension)) is None && e@
                    == ErrorView::NoProgramFound {
                    mime: mime@,
                    extension: opt_str_view(extension),
                },
            },
    {
        let ghost rules = self@;
        let ghost ext = opt_str_view(extension);
        let mut i: usize = 0;
        assert(rules.skip(0) =~= rules);
        while i < self.mappings.len()
            invariant
                rules == self@,
                ext == opt_str_view(extension),
                rules.len() == self.mappings.len(),
                i <= self.mappings.len(),
                resolve(rules, mime@, ext) == resolve(rules.skip(i as int), mime@, ext),
            decreases self.mappings.len() - i,
        {
            assert(rules.skip(i as int)[0] == self.mappings@[i as int]@);
            assert(rules.skip(i as int).drop_first() =~= rules.skip(i + 1));
            match self.mappings[i].get_program(mime, extension) {
                Some(p) => {
                    return Ok(p);
                },
                None => {},
            }
            i += 1;
        }
        let found = MimeType::new(mime.supertype(), mime.subtype());
        let ext_owned = match extension {
            Some(e) => Some(e.to_owned()),
            None => None,
        };
        Err(Error::NoProgramFound { mime: found, extension: ext_owned })
    }

    /// The program that opens the file at `file_path`, whose detected MIME
    /// type is `mime`: the first rule that applies wins, where a rule of
    /// extension compares with the extension of the path.
    pub fn get_program(&self, file_path: &str, mime: &MimeType) -> (r: Result<&str, Error>)
        ensures
            match r {
                Ok(p) => resolve(self@, mime@, extension_of(file_path@)) == Some(p@),
                Err(e) => resolve(self@, mime@, extension_of(file_path@)) is None && e@
                    == ErrorView::NoProgramFound { mime: mime@, extension: extension_of(file_path@) },
            },
    {
        let extension = file_extension(file_path);
        match &extension {
            Some(e) => self.resolve(mime, Some(e.as_str())),
            None => self.resolve(mime, None),
        }
    }
}

/// The extension of the final component of `path`, as
/// `std::path::Path::extension` finds it.
pub uninterp spec fn extension_of(path: Seq<char>) -> Option<Seq<char>>;

/// Relies on `std::path::Path::extension`: the part of the path's file name
/// after its last `.`, where that dot does not begin the name. A path given
/// as `&str` is UTF-8, so the extension converts without loss.
#[verifier::external_body]
fn file_extension(path: &str) -> (r: Option<String>)
    ensures
        opt_view(r) == extension_of(path@),
{
    std::path::Path::new(path).extension().map(|e| e.to_string_lossy().into_owned())
}

} // verus!
