// This Source Code Form is subject to the terms of the Mozilla Public
// License, v. 2.0. If a copy of the MPL was not distributed with this
// file, You can obtain one at https://mozilla.org/MPL/2.0/.

//! The cache of robots rules.
//!
//! The rules of a site are the robots file that was fetched from it, read for
//! one robot.  The cache keeps them by the site's domain and the robot's name
//! and never forgets an entry.  It fetches nothing itself: where the rules of a
//! site are missing it says where they are found, and takes the fetched file
//! through [`RobotsMap::learn`].  The `cylon` crate reads the file and decides
//! what it permits.

use crate::address::{robots_location, url_domain, url_path, Url};
use vstd::prelude::*;

verus! {

/// Whether `cylon::Compiler::compile`, for the robot `robot`, makes rules of
/// the robots file `file`.  It makes none where a line that it reads is no
/// text in UTF-8; it does not read every line of every file.
pub uninterp spec fn robots_compiles(robot: Seq<char>, file: Seq<u8>) -> bool;

/// What `cylon::Cylon::allow` answers for `path` on the rules that the
/// compiler makes of the robots file `file` for the robot `robot`.
pub uninterp spec fn robots_allows(robot: Seq<char>, file: Seq<u8>, path: Seq<char>) -> bool;

/// The length of the longest word that the compiler looks for at the head of
/// a line (`user-agent:`): up to this place a line is cut.
pub const HEAD: usize = 11;

/// Whether `b` is a blank that may stand before the text of a line.
pub open spec fn blank(b: u8) -> bool {
    b == 9 || b == 11 || b == 12 || b == 13 || b == 32
}

/// Whether the text of a line ends at `b`: at the line feed, or at the sign
/// that opens a comment.
pub open spec fn stop(b: u8) -> bool {
    b == 10 || b == 35
}

/// Whether a line of `file` starts at the place `p`.
pub open spec fn line_starts(file: Seq<u8>, p: int) -> bool {
    0 <= p <= file.len() && (p == 0 || file[p - 1] == 10)
}

/// The place where the text begins in the line that starts at `p`: behind
/// its leading blanks.
pub open spec fn text_start(file: Seq<u8>, p: int) -> int
    decreases file.len() - p,
{
    if 0 <= p < file.len() && blank(file[p]) {
        text_start(file, p + 1)
    } else {
        p
    }
}

/// Whether the first `n` bytes of a text that begins at `q` are ASCII
/// characters, as far as the text goes.
pub open spec fn head_plain(file: Seq<u8>, q: int, n: nat) -> bool
    decreases n,
{
    n == 0 || q < 0 || q >= file.len() || stop(file[q]) || (file[q] < 128 && head_plain(
        file,
        q + 1,
        (n - 1) as nat,
    ))
}

/// Whether `file` can be cut as the compiler cuts it: in every line, the
/// head of the text is made of ASCII characters.  The compiler takes each
/// line without its comment and without the blanks around it, and cuts it
/// after 6, 9 and 11 bytes to look for the words `allow:`, `disallow:` and
/// `user-agent:`; where the head is ASCII, each of these places lies between
/// two characters.
pub open spec fn cuttable(file: Seq<u8>) -> bool {
    forall|p: int| #[trigger] line_starts(file, p) ==> head_plain(file, text_start(file, p), HEAD as nat)
}

/// Whether the robots file `file` can be read as rules for `robot`: it can
/// be cut and the compiler makes rules of it.
pub open spec fn readable(robot: Seq<char>, file: Seq<u8>) -> bool {
    cuttable(file) && robots_compiles(robot, file)
}

/// Whether the robots file `file` is read and permits `robot` to visit `path`.
pub open spec fn permits(robot: Seq<char>, file: Seq<u8>, path: Seq<char>) -> bool {
    readable(robot, file) && robots_allows(robot, file, path)
}

/// Whether `file` can be cut as the compiler cuts it; see [`cuttable`].
pub fn is_cuttable(file: &[u8]) -> (r: bool)
    ensures
        r == cuttable(file@),
{
    let len = file.len();
    let mut p: usize = 0;
    loop
        invariant_except_break
            p <= len,
            line_starts(file@, p as int),
        invariant
            len == file.len(),
            forall|s: int| 0 <= s < p && #[trigger] line_starts(file@, s) ==> head_plain(
                file@,
                text_start(file@, s),
                HEAD as nat,
            ),
        ensures
            forall|s: int| #[trigger] line_starts(file@, s) ==> head_plain(
                file@,
                text_start(file@, s),
                HEAD as nat,
            ),
        decreases len - p,
    {
        // The leading blanks.
        let mut q: usize = p;
        while q < len && (file[q] == 9 || file[q] == 11 || file[q] == 12 || file[q] == 13
            || file[q] == 32)
            invariant
                p <= q <= len,
                len == file.len(),
                text_start(file@, p as int) == text_start(file@, q as int),
                forall|k: int| p <= k < q ==> #[trigger] file@[k] != 10,
            decreases len - q,
        {
            q += 1;
        }
        assert(text_start(file@, p as int) == q);
        // The head of the text.
        let mut j: usize = q;
        let mut left: usize = HEAD;
        while left > 0 && j < len && file[j] != 10 && file[j] != 35
            invariant
                q <= j <= len,
                len == file.len(),
                left <= HEAD,
                line_starts(file@, p as int),
                text_start(file@, p as int) == q,
                head_plain(file@, q as int, HEAD as nat) == head_plain(file@, j as int, left as nat),
                forall|k: int| q <= k < j ==> #[trigger] file@[k] != 10,
            decreases left,
        {
            if file[j] >= 128 {
                assert(!head_plain(file@, j as int, left as nat));
                assert(line_starts(file@, p as int));
                return false;
            }
            j += 1;
            left -= 1;
        }
        assert(head_plain(file@, j as int, left as nat));
        // The rest of the line.
        let mut e: usize = j;
        while e < len && file[e] != 10
            invariant
                j <= e <= len,
                len == file.len(),
                forall|k: int| j <= k < e ==> #[trigger] file@[k] != 10,
            decreases len - e,
        {
            e += 1;
        }
        assert forall|s: int| 0 <= s <= e && #[trigger] line_starts(file@, s) implies head_plain(
            file@,
            text_start(file@, s),
            HEAD as nat,
        ) by {
            if s > p {
                assert(file@[s - 1] != 10);
            }
        }
        if e == len {
            assert forall|s: int| #[trigger] line_starts(file@, s) implies head_plain(
                file@,
                text_start(file@, s),
                HEAD as nat,
            ) by {}
            break ;
        }
        p = e + 1;
    }
    true
}

/// `cylon::Compiler::new` and `cylon::Compiler::compile` on a file in memory,
/// polled once with `futures_util::FutureExt::now_or_never`: tells whether
/// rules came out, as [`robots_compiles`] names it.  The file must be one that
/// can be cut: the compiler cuts each line at fixed byte offsets and does
/// not return where such an offset falls inside a character.
#[verifier::external_body]
fn rules_compile(robot: &str, file: &[u8]) -> (r: bool)
    requires
        cuttable(file@),
    ensures
        r == robots_compiles(robot@, file@),
{
    let rules = futures_util::FutureExt::now_or_never(cylon::Compiler::new(robot).compile(file));
    matches!(rules, Some(Ok(_)))
}

/// `cylon::Cylon::allow` on the rules compiled as in [`rules_compile`]: the
/// answer is the one named [`robots_allows`], and there is none where no rules
/// came out.  The file must be one that can be cut, as for [`rules_compile`].
#[verifier::external_body]
fn rules_allow(robot: &str, file: &[u8], path: &str) -> (r: Option<bool>)
    requires
        cuttable(file@),
    ensures
        r == if robots_compiles(robot@, file@) {
            Some(robots_allows(robot@, file@, path@))
        } else {
            None
        },
{
    match futures_util::FutureExt::now_or_never(cylon::Compiler::new(robot).compile(file)) {
        Some(Ok(rules)) => Some(rules.allow(path)),
        _ => None,
    }
}

/// The rules of one site for one robot.  They are kept as the robots file
/// itself, which can be cut and is read anew for each question.
#[derive(Debug)]
pub struct RobotsVerifier {
    robot: String,
    file: Vec<u8>,
}

impl RobotsVerifier {
    /// The robots file of a verifier can be cut.
    #[verifier::type_invariant]
    spec fn file_is_cuttable(&self) -> bool {
        cuttable(self.file@)
    }

    /// The robot that the rules are read for, as a mathematical value.
    pub closed spec fn robot(&self) -> Seq<char> {
        self.robot@
    }

    /// The robots file, as a mathematical value.
    pub closed spec fn file(&self) -> Seq<u8> {
        self.file@
    }

    /// The rules that the robots file `file` holds for `robot`, if the file can
    /// be read: if it can be cut and the compiler makes rules of it.
    pub fn new(robot: &str, file: Vec<u8>) -> (r: Option<Self>)
        ensures
            r.is_some() == readable(robot@, file@),
            r.is_some() ==> r.unwrap().robot() == robot@ && r.unwrap().file() == file@,
    {
        if is_cuttable(file.as_slice()) && rules_compile(robot, file.as_slice()) {
            Some(RobotsVerifier { robot: robot.to_owned(), file })
        } else {
            None
        }
    }

    /// Whether the rules permit the robot to visit `url`.
    pub fn is_allowed(&self, url: &Url) -> (r: bool)
        ensures
            r == permits(self.robot(), self.file(), url_path(url@)),
    {
        proof {
            use_type_invariant(self);
        }
        let path = url.path();
        match rules_allow(self.robot.as_str(), self.file.as_slice(), path.as_str()) {
            Some(allowed) => allowed,
            None => false,
        }
    }
}

/// The rules cached for one site and one robot.
#[derive(Debug)]
struct Entry {
    domain: String,
    verifier: RobotsVerifier,
}

/// The robots file that `entries` hold for `domain` and `robot`: that of the
/// last entry for them, if there is one.
spec fn cached(entries: Seq<Entry>, domain: Seq<char>, robot: Seq<char>) -> Option<Seq<u8>>
    decreases entries.len(),
{
    if entries.len() == 0 {
        None
    } else if entries.last().domain@ == domain && entries.last().verifier.robot() == robot {
        Some(entries.last().verifier.file())
    } else {
        cached(entries.drop_last(), domain, robot)
    }
}

/// What the cache says of a URL.
#[derive(Debug)]
pub enum Verdict {
    /// The rules are at hand, or do not apply, and this is their answer.
    Known(bool),
    /// The rules of the site have to be fetched from this URL first.
    Fetch(Url),
    /// The place of the site's rules cannot be written as a URL.
    Unreachable,
}

/// What the cache says of a URL, as a mathematical value.
pub enum VerdictView {
    Known(bool),
    Fetch(Seq<char>),
    Unreachable,
}

impl View for Verdict {
    type V = VerdictView;

    open spec fn view(&self) -> VerdictView {
        match self {
            Verdict::Known(allowed) => VerdictView::Known(*allowed),
            Verdict::Fetch(url) => VerdictView::Fetch(url@),
            Verdict::Unreachable => VerdictView::Unreachable,
        }
    }
}

/// What a cache with the files `files`, kept by domain and robot, says of the
/// URL `url` for `robot`.  A URL without a domain is under no rules.
pub open spec fn verdict(
    files: Map<(Seq<char>, Seq<char>), Seq<u8>>,
    robot: Seq<char>,
    url: Seq<char>,
) -> VerdictView {
    match url_domain(url) {
        None => VerdictView::Known(true),
        Some(domain) => if files.dom().contains((domain, robot)) {
            VerdictView::Known(permits(robot, files[(domain, robot)], url_path(url)))
        } else {
            match robots_location(url) {
                Some(place) => VerdictView::Fetch(place),
                None => VerdictView::Unreachable,
            }
        },
    }
}

/// The files of a cache after it was given `file` as the robots file of the
/// site of `url`, to be read for `robot`.  A file that cannot be read (one
/// that cannot be cut, or one that the compiler makes no rules of), or one
/// for a URL without a domain, leaves the cache as it was.
pub open spec fn learned(
    files: Map<(Seq<char>, Seq<char>), Seq<u8>>,
    robot: Seq<char>,
    url: Seq<char>,
    file: Seq<u8>,
) -> Map<(Seq<char>, Seq<char>), Seq<u8>> {
    match url_domain(url) {
        Some(domain) => if readable(robot, file) {
            files.insert((domain, robot), file)
        } else {
            files
        },
        None => files,
    }
}

/// The cache of robots rules, by domain and robot.
#[derive(Debug)]
pub struct RobotsMap {
    entries: Vec<Entry>,
}

impl View for RobotsMap {
    type V = Map<(Seq<char>, Seq<char>), Seq<u8>>;

    closed spec fn view(&self) -> Map<(Seq<char>, Seq<char>), Seq<u8>> {
        Map::new(
            |key: (Seq<char>, Seq<char>)| cached(self.entries@, key.0, key.1).is_some(),
            |key: (Seq<char>, Seq<char>)| cached(self.entries@, key.0, key.1).unwrap(),
        )
    }
}

impl Default for RobotsMap {
    /// A cache without rules.
    fn default() -> (r: Self)
        ensures
            r@ == Map::<(Seq<char>, Seq<char>), Seq<u8>>::empty(),
    {
        let r = RobotsMap { entries: Vec::new() };
        assert(r@ =~= Map::<(Seq<char>, Seq<char>), Seq<u8>>::empty());
        r
    }
}

impl RobotsMap {
    /// The rules cached for `domain` and `robot`.
    fn find(&self, domain: &str, robot: &str) -> (r: Option<&RobotsVerifier>)
        ensures
            r.is_some() == self@.dom().contains((domain@, robot@)),
            r.is_some() ==> r.unwrap().robot() == robot@ && r.unwrap().file() == self@[(
                domain@,
                robot@,
            )],
    {
        let mut i: usize = self.entries.len();
        assert(self.entries@.take(i as int) =~= self.entries@);
        while i > 0
            invariant
                i <= self.entries.len(),
                cached(self.entries@, domain@, robot@) == cached(
                    self.entries@.take(i as int),
                    domain@,
                    robot@,
                ),
            decreases i,
        {
            let entry = &self.entries[i - 1];
            assert(self.entries@.take(i as int).last() == self.entries@[i - 1]);
            if crate::text::same_text(entry.domain.as_str(), domain) && crate::text::same_text(
                entry.verifier.robot.as_str(),
                robot,
            ) {
                return Some(&entry.verifier);
            }
            assert(self.entries@.take(i as int).drop_last() =~= self.entries@.take(i - 1));
            i -= 1;
        }
        None
    }

    /// Says whether `robot` may visit `url`, as far as the cache knows: the
    /// answer of the cached rules of the URL's site, or the place to fetch
    /// those rules from.
    pub fn is_allowed(&self, robot: &str, url: &Url) -> (r: Verdict)
        ensures
            r@ == verdict(self@, robot@, url@),
    {
        let domain = match url.domain() {
            Some(domain) => domain,
            None => {
                return Verdict::Known(true);
            },
        };
        if let Some(verifier) = self.find(domain.as_str(), robot) {
            return Verdict::Known(verifier.is_allowed(url));
        }
        match url.robots_url() {
            Some(place) => Verdict::Fetch(place),
            None => Verdict::Unreachable,
        }
    }

    /// Takes `file` as the robots file of the site of `url`, to be read for
    /// `robot`, and says whether `robot` may visit `url`.  There is no answer
    /// where the file cannot be read, and the cache then stays as it was.
    pub fn learn(&mut self, robot: &str, url: &Url, file: Vec<u8>) -> (r: Option<bool>)
        ensures
            final(self)@ == learned(old(self)@, robot@, url@, file@),
            r == match url_domain(url@) {
                Some(domain) => if readable(robot@, file@) {
                    Some(permits(robot@, file@, url_path(url@)))
                } else {
                    None
                },
                None => Some(true),
            },
    {
        let domain = match url.domain() {
            Some(domain) => domain,
            None => {
                return Some(true);
            },
        };
        let verifier = match RobotsVerifier::new(robot, file) {
            Some(verifier) => verifier,
            None => {
                return None;
            },
        };
        let allowed = verifier.is_allowed(url);
        let ghost before = self.entries@;
        self.entries.push(Entry { domain, verifier });
        proof {
            assert(self.entries@.drop_last() =~= before);
            assert(self@ =~= old(self)@.insert((domain@, robot@), file@));
        }
        Some(allowed)
    }
}

} // verus!
