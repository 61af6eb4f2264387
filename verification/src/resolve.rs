//! Which files of an Oberon source tree are compiled, and in what order: each
//! module's `IMPORT` list is read from its header, and the modules are sorted
//! so that every one comes after those it imports, ties broken by name.
use vstd::prelude::*;

use crate::shim::utf8_of;
use crate::text::{latin1_chars, push_char, string_from_latin1};
use vstd::string::*;

verus! {

// ---------------------------------------------------------------------------
// Scanning a module header
// ---------------------------------------------------------------------------

/// ASCII whitespace as Rust's `u8::is_ascii_whitespace` has it: space, tab, LF,
/// form feed, CR.
pub open spec fn is_space(c: u8) -> bool {
    c == 0x20 || c == 0x09 || c == 0x0A || c == 0x0C || c == 0x0D
}

/// An ASCII letter or digit.
pub open spec fn is_alnum(c: u8) -> bool {
    crate::is_ascii_letter(c) || crate::is_ascii_digit(c)
}

/// Whether `b[i]` is `x` and `b[i + 1]` is `y`.
pub open spec fn pair_at(b: Seq<u8>, i: int, x: u8, y: u8) -> bool {
    0 <= i && i + 1 < b.len() && b[i] == x && b[i + 1] == y
}

/// Where a comment body starting at `i`, nested `depth` deep, ends: just past
/// its closing `*)`, or at the end of the text.
pub open spec fn comment_end(b: Seq<u8>, i: int, depth: nat) -> int
    decreases b.len() - i,
{
    if depth == 0 || i >= b.len() || i < 0 {
        i
    } else if pair_at(b, i, 0x28, 0x2A) {
        comment_end(b, i + 2, depth + 1)
    } else if pair_at(b, i, 0x2A, 0x29) {
        comment_end(b, i + 2, (depth - 1) as nat)
    } else {
        comment_end(b, i + 1, depth)
    }
}

/// Where the whitespace and (nesting) `(* *)` comments from `i` on end.
pub open spec fn skip_trivia(b: Seq<u8>, i: int) -> int
    decreases b.len() - i, 0int,
{
    if i < 0 || i >= b.len() {
        i
    } else if is_space(b[i]) {
        skip_trivia(b, i + 1)
    } else if pair_at(b, i, 0x28, 0x2A) {
        let j = comment_end(b, i + 2, 1);
        if i < j <= b.len() {
            skip_trivia(b, j)
        } else {
            i
        }
    } else {
        i
    }
}

/// Where the run of letters and digits from `i` on ends.
pub open spec fn alnum_end(b: Seq<u8>, i: int) -> int
    decreases b.len() - i,
{
    if i < 0 || i >= b.len() || !is_alnum(b[i]) {
        i
    } else {
        alnum_end(b, i + 1)
    }
}

/// An identifier after trivia from `i` on (a letter, then letters and digits)
/// and the position after it; with no identifier, `None` and the position
/// after the trivia.
pub open spec fn ident_at(b: Seq<u8>, i: int) -> (Option<Seq<u8>>, int) {
    let p = skip_trivia(b, i);
    if 0 <= p < b.len() && crate::is_ascii_letter(b[p]) {
        let q = alnum_end(b, p);
        (Some(b.subrange(p, q)), q)
    } else {
        (None, p)
    }
}

/// Whether byte `c` comes next after trivia from `i`, and the position after
/// it (or after the trivia).
pub open spec fn eat_at(b: Seq<u8>, i: int, c: u8) -> (bool, int) {
    let p = skip_trivia(b, i);
    if 0 <= p < b.len() && b[p] == c {
        (true, p + 1)
    } else {
        (false, p)
    }
}

/// Whether `:=` comes next after trivia from `i`, and the position after it (or
/// after the trivia).
pub open spec fn eat_becomes_at(b: Seq<u8>, i: int) -> (bool, int) {
    let p = skip_trivia(b, i);
    if pair_at(b, p, 0x3A, 0x3D) {
        (true, p + 2)
    } else {
        (false, p)
    }
}

proof fn lemma_comment_end(b: Seq<u8>, i: int, depth: nat)
    requires
        0 <= i <= b.len(),
    ensures
        i <= comment_end(b, i, depth) <= b.len(),
    decreases b.len() - i,
{
    if depth == 0 || i >= b.len() {
    } else if pair_at(b, i, 0x28, 0x2A) {
        lemma_comment_end(b, i + 2, depth + 1);
    } else if pair_at(b, i, 0x2A, 0x29) {
        lemma_comment_end(b, i + 2, (depth - 1) as nat);
    } else {
        lemma_comment_end(b, i + 1, depth);
    }
}

/// Trivia is skipped forward and never past the end.
pub proof fn lemma_skip_trivia(b: Seq<u8>, i: int)
    requires
        0 <= i <= b.len(),
    ensures
        i <= skip_trivia(b, i) <= b.len(),
    decreases b.len() - i,
{
    if i < b.len() {
        if is_space(b[i]) {
            lemma_skip_trivia(b, i + 1);
        } else if pair_at(b, i, 0x28, 0x2A) {
            lemma_comment_end(b, i + 2, 1);
            lemma_skip_trivia(b, comment_end(b, i + 2, 1));
        }
    }
}

proof fn lemma_alnum_end(b: Seq<u8>, i: int)
    requires
        0 <= i <= b.len(),
    ensures
        i <= alnum_end(b, i) <= b.len(),
        forall|k: int| i <= k < alnum_end(b, i) ==> is_alnum(#[trigger] b[k]),
    decreases b.len() - i,
{
    if i < b.len() && is_alnum(b[i]) {
        lemma_alnum_end(b, i + 1);
    }
}

/// The run of letters and digits ends at the end of the text or at a byte
/// that is neither.
proof fn lemma_alnum_end_stops(b: Seq<u8>, i: int)
    requires
        0 <= i <= b.len(),
    ensures
        alnum_end(b, i) == b.len() || !is_alnum(b[alnum_end(b, i)]),
    decreases b.len() - i,
{
    if i < b.len() && is_alnum(b[i]) {
        lemma_alnum_end_stops(b, i + 1);
    }
}

/// An identifier is read whole: where one starts (a letter after the
/// trivia), the scanner yields that letter and every ASCII letter and digit
/// after it, up to the end of the text or the first byte that is neither.
pub proof fn law_identifier_is_maximal(b: Seq<u8>, i: int)
    requires
        0 <= i <= b.len(),
    ensures
        ({
            let p = skip_trivia(b, i);
            let (id, q) = ident_at(b, i);
            (0 <= p < b.len() && crate::is_ascii_letter(b[p])) ==> {
                &&& p < q <= b.len()
                &&& id == Some(b.subrange(p, q))
                &&& forall|k: int|
                    p <= k < q ==> crate::is_ascii_letter(#[trigger] b[k]) || crate::is_ascii_digit(b[k])
                &&& q == b.len() || !(crate::is_ascii_letter(b[q]) || crate::is_ascii_digit(b[q]))
            }
        }),
{
    lemma_skip_trivia(b, i);
    let p = skip_trivia(b, i);
    if 0 <= p < b.len() && crate::is_ascii_letter(b[p]) {
        lemma_alnum_end(b, p);
        lemma_alnum_end_stops(b, p);
        lemma_alnum_end(b, p + 1);
    }
}

/// The scanner positions move forward and stay in the text; an identifier
/// read moves strictly forward.
pub proof fn lemma_scan_forward(b: Seq<u8>, i: int)
    requires
        0 <= i <= b.len(),
    ensures
        i <= ident_at(b, i).1 <= b.len(),
        ident_at(b, i).0 is Some ==> i < ident_at(b, i).1,
        i <= eat_at(b, i, 0x2C).1 <= b.len(),
        i <= eat_becomes_at(b, i).1 <= b.len(),
{
    lemma_skip_trivia(b, i);
    let p = skip_trivia(b, i);
    if 0 <= p < b.len() {
        lemma_alnum_end(b, p);
        if is_alnum(b[p]) {
            lemma_alnum_end(b, p + 1);
        }
    }
}

/// Whether `c` is an ASCII letter or digit.
fn alnum_byte(c: u8) -> (b: bool)
    ensures
        b == is_alnum(c),
{
    (0x41 <= c && c <= 0x5A) || (0x61 <= c && c <= 0x7A) || (0x30 <= c && c <= 0x39)
}

/// A cursor over Oberon source bytes (Latin-1 with CR line endings), enough to
/// read a module header: it skips whitespace and nesting `(* *)` comments.
pub struct Scan<'a> {
    pub b: &'a [u8],
    pub i: usize,
}

impl<'a> Scan<'a> {
    /// Skip whitespace and comments.
    pub fn skip_trivia(&mut self)
        requires
            old(self).i <= old(self).b@.len(),
        ensures
            final(self).b == old(self).b,
            final(self).i == skip_trivia(old(self).b@, old(self).i as int),
    {
        let n = self.b.len();
        loop
            invariant
                self.b == old(self).b,
                n == self.b@.len(),
                self.i <= n,
                skip_trivia(self.b@, self.i as int) == skip_trivia(old(self).b@, old(self).i as int),
            decreases n - self.i,
        {
            if self.i < n && (self.b[self.i] == 0x20 || self.b[self.i] == 0x09 || self.b[self.i] == 0x0A
                || self.b[self.i] == 0x0C || self.b[self.i] == 0x0D) {
                self.i = self.i + 1;
            } else if self.i < n && n - self.i > 1 && self.b[self.i] == 0x28 && self.b[self.i + 1] == 0x2A {
                let ghost start = self.i as int;
                self.i = self.i + 2;
                let mut depth: usize = 1;
                proof {
                    lemma_comment_end(self.b@, self.i as int, 1);
                }
                while depth > 0 && self.i < n
                    invariant
                        self.b == old(self).b,
                        n == self.b@.len(),
                        start + 2 <= self.i <= n,
                        depth <= self.i,
                        comment_end(self.b@, self.i as int, depth as nat) == comment_end(
                            self.b@,
                            start + 2,
                            1,
                        ),
                    decreases n - self.i,
                {
                    if n - self.i > 1 && self.b[self.i] == 0x28 && self.b[self.i + 1] == 0x2A {
                        depth = depth + 1;
                        self.i = self.i + 2;
                    } else if n - self.i > 1 && self.b[self.i] == 0x2A && self.b[self.i + 1] == 0x29 {
                        depth = depth - 1;
                        self.i = self.i + 2;
                    } else {
                        self.i = self.i + 1;
                    }
                }
                assert(self.i as int == comment_end(self.b@, start + 2, 1));
            } else {
                return;
            }
        }
    }

    /// Read an identifier (a letter, then letters and digits) after trivia.
    pub fn ident(&mut self) -> (id: Option<Vec<u8>>)
        requires
            old(self).i <= old(self).b@.len(),
        ensures
            final(self).b == old(self).b,
            final(self).i <= final(self).b@.len(),
            (match id {
                Some(v) => Some(v@),
                None => None::<Seq<u8>>,
            }, final(self).i as int) == ident_at(old(self).b@, old(self).i as int),
    {
        proof {
            lemma_scan_forward(self.b@, self.i as int);
        }
        self.skip_trivia();
        let n = self.b.len();
        if self.i >= n {
            return None;
        }
        let c = self.b[self.i];
        if !((0x41 <= c && c <= 0x5A) || (0x61 <= c && c <= 0x7A)) {
            return None;
        }
        let start = self.i;
        let mut id: Vec<u8> = Vec::new();
        while self.i < n && alnum_byte(self.b[self.i])
            invariant
                self.b == old(self).b,
                n == self.b@.len(),
                start <= self.i <= n,
                alnum_end(self.b@, self.i as int) == alnum_end(self.b@, start as int),
                id@ =~= self.b@.subrange(start as int, self.i as int),
            decreases n - self.i,
        {
            id.push(self.b[self.i]);
            self.i = self.i + 1;
        }
        Some(id)
    }

    /// Consume byte `c` if it comes next after trivia; report whether it did.
    pub fn eat(&mut self, c: u8) -> (ate: bool)
        requires
            old(self).i <= old(self).b@.len(),
        ensures
            final(self).b == old(self).b,
            final(self).i <= final(self).b@.len(),
            (ate, final(self).i as int) == eat_at(old(self).b@, old(self).i as int, c),
    {
        proof {
            lemma_skip_trivia(self.b@, self.i as int);
        }
        self.skip_trivia();
        if self.i < self.b.len() && self.b[self.i] == c {
            self.i = self.i + 1;
            true
        } else {
            false
        }
    }

    /// Consume `:=` if it comes next after trivia; report whether it did.
    pub fn eat_becomes(&mut self) -> (ate: bool)
        requires
            old(self).i <= old(self).b@.len(),
        ensures
            final(self).b == old(self).b,
            final(self).i <= final(self).b@.len(),
            (ate, final(self).i as int) == eat_becomes_at(old(self).b@, old(self).i as int),
    {
        proof {
            lemma_skip_trivia(self.b@, self.i as int);
        }
        self.skip_trivia();
        if self.i < self.b.len() && self.b.len() - self.i > 1 && self.b[self.i] == 0x3A && self.b[self.i + 1] == 0x3D {
            self.i = self.i + 2;
            true
        } else {
            false
        }
    }
}

// ---------------------------------------------------------------------------
// Module headers
// ---------------------------------------------------------------------------

/// The keyword `MODULE`.
pub open spec fn kw_module() -> Seq<u8> {
    seq![0x4Du8, 0x4Fu8, 0x44u8, 0x55u8, 0x4Cu8, 0x45u8]
}

/// The keyword `IMPORT`.
pub open spec fn kw_import() -> Seq<u8> {
    seq![0x49u8, 0x4Du8, 0x50u8, 0x4Fu8, 0x52u8, 0x54u8]
}

/// The pseudo-module `SYSTEM`.
pub open spec fn kw_system() -> Seq<u8> {
    seq![0x53u8, 0x59u8, 0x53u8, 0x54u8, 0x45u8, 0x4Du8]
}

/// Why a file is not an Oberon module header (as a value).
pub enum HeaderFault {
    NoModule,
    NotModule(Seq<char>),
    MissingName,
    MissingSemicolon,
    MalformedImport,
    MalformedAlias,
}

/// Why a file is not an Oberon module header.
#[derive(Debug, PartialEq, Eq)]
pub enum HeaderError {
    /// It does not begin with an identifier.
    NoModule,
    /// It begins with this identifier rather than `MODULE`.
    NotModule(String),
    /// No module name after `MODULE`.
    MissingName,
    /// No `;` after the module name.
    MissingSemicolon,
    /// An `IMPORT` list entry is not an identifier.
    MalformedImport,
    /// An `IMPORT` alias `:=` is not followed by an identifier.
    MalformedAlias,
}

impl View for HeaderError {
    type V = HeaderFault;

    open spec fn view(&self) -> HeaderFault {
        match self {
            HeaderError::NoModule => HeaderFault::NoModule,
            HeaderError::NotModule(s) => HeaderFault::NotModule(s@),
            HeaderError::MissingName => HeaderFault::MissingName,
            HeaderError::MissingSemicolon => HeaderFault::MissingSemicolon,
            HeaderError::MalformedImport => HeaderFault::MalformedImport,
            HeaderError::MalformedAlias => HeaderFault::MalformedAlias,
        }
    }
}

/// The modules an `IMPORT` list from `i` on names, in order: an alias
/// `B := A` names `A`, and `SYSTEM` (a pseudo-module) is dropped.
pub open spec fn imports_spec(b: Seq<u8>, i: int) -> Result<Seq<Seq<char>>, HeaderFault>
    decreases b.len() - i,
{
    let (first, p1) = ident_at(b, i);
    match first {
        None => Err(HeaderFault::MalformedImport),
        Some(f) => {
            let (alias, p2) = eat_becomes_at(b, p1);
            let (m, p3) = if alias { ident_at(b, p2) } else { (Some(f), p2) };
            match m {
                None => Err(HeaderFault::MalformedAlias),
                Some(module) => {
                    let acc: Seq<Seq<char>> = if module == kw_system() {
                        Seq::empty()
                    } else {
                        seq![latin1_chars(module)]
                    };
                    let (comma, p4) = eat_at(b, p3, 0x2C);
                    if comma && i < p4 <= b.len() {
                        match imports_spec(b, p4) {
                            Ok(rest) => Ok(acc + rest),
                            Err(e) => Err(e),
                        }
                    } else {
                        Ok(acc)
                    }
                },
            }
        },
    }
}

/// A module header's (module name, imported modules): `MODULE`, an optional
/// `*` export marker, the name, `;`, then at most one `IMPORT` list.
pub open spec fn header_spec(b: Seq<u8>) -> Result<(Seq<char>, Seq<Seq<char>>), HeaderFault> {
    let (m, p1) = ident_at(b, 0);
    match m {
        None => Err(HeaderFault::NoModule),
        Some(w) => {
            if w != kw_module() {
                Err(HeaderFault::NotModule(latin1_chars(w)))
            } else {
                let (_, p2) = eat_at(b, p1, 0x2A);
                let (n, p3) = ident_at(b, p2);
                match n {
                    None => Err(HeaderFault::MissingName),
                    Some(name) => {
                        let (semi, p4) = eat_at(b, p3, 0x3B);
                        if !semi {
                            Err(HeaderFault::MissingSemicolon)
                        } else {
                            let (kw, p5) = ident_at(b, p4);
                            if kw == Some(kw_import()) {
                                match imports_spec(b, p5) {
                                    Ok(imports) => Ok((latin1_chars(name), imports)),
                                    Err(e) => Err(e),
                                }
                            } else {
                                Ok((latin1_chars(name), Seq::empty()))
                            }
                        }
                    },
                }
            }
        },
    }
}

/// Whether `a` and `b` hold the same bytes.
fn bytes_equal(a: &[u8], b: &[u8]) -> (eq: bool)
    ensures
        eq == (a@ == b@),
{
    if a.len() != b.len() {
        return false;
    }
    let mut i: usize = 0;
    while i < a.len()
        invariant
            a@.len() == b@.len(),
            i <= a@.len(),
            forall|j: int| 0 <= j < i ==> a@[j] == b@[j],
        decreases a@.len() - i,
    {
        if a[i] != b[i] {
            return false;
        }
        i = i + 1;
    }
    assert(a@ =~= b@);
    true
}

/// Parse a module header into (module name, imported module names): the
/// optional `MODULE*` export marker, alias imports (`IMPORT B := A` imports
/// `A`), and `SYSTEM` (a pseudo-module, dropped). Only the header is read.
pub fn parse_header(src: &[u8]) -> (r: Result<(String, Vec<String>), HeaderError>)
    ensures
        match r {
            Ok((name, imports)) => header_spec(src@) == Ok::<(Seq<char>, Seq<Seq<char>>), HeaderFault>(
                (name@, imports@.map_values(|s: String| s@)),
            ),
            Err(e) => header_spec(src@) == Err::<(Seq<char>, Seq<Seq<char>>), HeaderFault>(e@),
        },
{
    let kw_mod: [u8; 6] = [0x4D, 0x4F, 0x44, 0x55, 0x4C, 0x45];
    let kw_imp: [u8; 6] = [0x49, 0x4D, 0x50, 0x4F, 0x52, 0x54];
    let kw_sys: [u8; 6] = [0x53, 0x59, 0x53, 0x54, 0x45, 0x4D];
    assert(kw_mod@ =~= kw_module() && kw_imp@ =~= kw_import() && kw_sys@ =~= kw_system());
    let mut s = Scan { b: src, i: 0 };
    let first = match s.ident() {
        None => return Err(HeaderError::NoModule),
        Some(w) => w,
    };
    if !bytes_equal(first.as_slice(), kw_mod.as_slice()) {
        return Err(HeaderError::NotModule(string_from_latin1(first.as_slice())));
    }
    s.eat(0x2A);
    let name = match s.ident() {
        None => return Err(HeaderError::MissingName),
        Some(n) => n,
    };
    if !s.eat(0x3B) {
        return Err(HeaderError::MissingSemicolon);
    }
    let name = string_from_latin1(name.as_slice());
    let mut imports: Vec<String> = Vec::new();
    let kw = s.ident();
    let is_import = match &kw {
        Some(w) => bytes_equal(w.as_slice(), kw_imp.as_slice()),
        None => false,
    };
    if !is_import {
        assert(imports@.map_values(|x: String| x@) =~= Seq::<Seq<char>>::empty());
        return Ok((name, imports));
    }
    let ghost target = imports_spec(src@, s.i as int);
    assert(header_spec(src@) == match target {
        Ok(imps) => Ok((name@, imps)),
        Err(e) => Err::<(Seq<char>, Seq<Seq<char>>), HeaderFault>(e),
    });
    let mut more = true;
    while more
        invariant
            header_spec(src@) == match target {
                Ok(imps) => Ok((name@, imps)),
                Err(e) => Err::<(Seq<char>, Seq<Seq<char>>), HeaderFault>(e),
            },
            s.b == src,
            s.i <= src@.len(),
            more ==> target == match imports_spec(src@, s.i as int) {
                Ok(rest) => Ok(imports@.map_values(|x: String| x@) + rest),
                Err(e) => Err::<Seq<Seq<char>>, HeaderFault>(e),
            },
            !more ==> target == Ok::<Seq<Seq<char>>, HeaderFault>(imports@.map_values(|x: String| x@)),
            kw_sys@ == kw_system(),
        decreases src@.len() - s.i, if more { 1int } else { 0int },
    {
        let ghost i0 = s.i as int;
        let ghost before = imports@.map_values(|x: String| x@);
        proof {
            lemma_scan_forward(src@, i0);
        }
        let first = match s.ident() {
            None => return Err(HeaderError::MalformedImport),
            Some(f) => f,
        };
        proof {
            lemma_scan_forward(src@, s.i as int);
        }
        let module = if s.eat_becomes() {
            proof {
                lemma_scan_forward(src@, s.i as int);
            }
            match s.ident() {
                None => return Err(HeaderError::MalformedAlias),
                Some(m) => m,
            }
        } else {
            first
        };
        if !bytes_equal(module.as_slice(), kw_sys.as_slice()) {
            let text = string_from_latin1(module.as_slice());
            imports.push(text);
        }
        proof {
            lemma_scan_forward(src@, s.i as int);
        }
        let comma = s.eat(0x2C);
        proof {
            let acc: Seq<Seq<char>> = if module@ == kw_system() {
                Seq::empty()
            } else {
                seq![latin1_chars(module@)]
            };
            assert(imports@.map_values(|x: String| x@) =~= before + acc);
            if comma {
                let rest = imports_spec(src@, s.i as int);
                if rest is Ok {
                    assert(before + (acc + rest->Ok_0) =~= (before + acc) + rest->Ok_0);
                }
            }
        }
        more = comma;
    }
    Ok((name, imports))
}

// ---------------------------------------------------------------------------
// Dependency order
// ---------------------------------------------------------------------------

/// Byte strings in lexicographic order (the order of Rust's `str`).
pub open spec fn bytes_lt(x: Seq<u8>, y: Seq<u8>) -> bool
    decreases x.len(),
{
    if y.len() == 0 {
        false
    } else if x.len() == 0 {
        true
    } else if x[0] != y[0] {
        x[0] < y[0]
    } else {
        bytes_lt(x.drop_first(), y.drop_first())
    }
}

/// The order is strict: never both ways.
pub proof fn lemma_bytes_lt_asymmetric(x: Seq<u8>, y: Seq<u8>)
    ensures
        !(bytes_lt(x, y) && bytes_lt(y, x)),
    decreases x.len(),
{
    if x.len() > 0 && y.len() > 0 && x[0] == y[0] {
        lemma_bytes_lt_asymmetric(x.drop_first(), y.drop_first());
    }
}

/// The order is total on distinct strings.
pub proof fn lemma_bytes_lt_total(x: Seq<u8>, y: Seq<u8>)
    requires
        x != y,
    ensures
        bytes_lt(x, y) || bytes_lt(y, x),
    decreases x.len(),
{
    if x.len() > 0 && y.len() > 0 && x[0] == y[0] {
        if x.drop_first() == y.drop_first() {
            assert(x =~= seq![x[0]] + x.drop_first());
            assert(y =~= seq![y[0]] + y.drop_first());
        }
        lemma_bytes_lt_total(x.drop_first(), y.drop_first());
    } else if x.len() == 0 && y.len() == 0 {
        assert(x =~= y);
    }
}

/// The order is transitive.
pub proof fn lemma_bytes_lt_transitive(x: Seq<u8>, y: Seq<u8>, z: Seq<u8>)
    requires
        bytes_lt(x, y),
        bytes_lt(y, z),
    ensures
        bytes_lt(x, z),
    decreases x.len(),
{
    if x.len() > 0 && y.len() > 0 && z.len() > 0 && x[0] == y[0] && y[0] == z[0] {
        lemma_bytes_lt_transitive(x.drop_first(), y.drop_first(), z.drop_first());
    }
}

/// Whether `a` sorts before `b`.
fn bytes_less(a: &[u8], b: &[u8]) -> (lt: bool)
    ensures
        lt == bytes_lt(a@, b@),
{
    let mut i: usize = 0;
    assert(a@.subrange(0, a@.len() as int) =~= a@ && b@.subrange(0, b@.len() as int) =~= b@);
    while i < a.len() && i < b.len() && a[i] == b[i]
        invariant
            i <= a@.len(),
            i <= b@.len(),
            bytes_lt(a@, b@) == bytes_lt(a@.subrange(i as int, a@.len() as int), b@.subrange(i as int, b@.len() as int)),
        decreases a@.len() - i,
    {
        proof {
            let x = a@.subrange(i as int, a@.len() as int);
            let y = b@.subrange(i as int, b@.len() as int);
            assert(x.drop_first() =~= a@.subrange(i + 1, a@.len() as int));
            assert(y.drop_first() =~= b@.subrange(i + 1, b@.len() as int));
        }
        i = i + 1;
    }
    if i == b.len() {
        false
    } else if i == a.len() {
        true
    } else {
        a[i] < b[i]
    }
}

/// A dependency graph: each node's name and imports, as UTF-8 bytes.
pub open spec fn graph_of(nodes: Seq<(String, Vec<String>)>) -> Seq<(Seq<u8>, Seq<Seq<u8>>)> {
    nodes.map_values(|n: (String, Vec<String>)| (utf8_of(n.0@), n.1@.map_values(|d: String| utf8_of(d@))))
}

/// The UTF-8 bytes of a list of names.
pub open spec fn names_of(v: Seq<String>) -> Seq<Seq<u8>> {
    v.map_values(|s: String| utf8_of(s@))
}

/// Some node is named `n`.
pub open spec fn named(g: Seq<(Seq<u8>, Seq<Seq<u8>>)>, n: Seq<u8>) -> bool {
    exists|j: int| 0 <= j < g.len() && #[trigger] g[j].0 == n
}

/// Node `i` is the last one with its name (a later node of the same name
/// replaces an earlier one).
pub open spec fn is_last(g: Seq<(Seq<u8>, Seq<Seq<u8>>)>, i: int) -> bool {
    forall|j: int| i < j < g.len() ==> #[trigger] g[j].0 != g[i].0
}

/// Node `i` is the last of its name and not yet emitted.
pub open spec fn pending(g: Seq<(Seq<u8>, Seq<Seq<u8>>)>, done: Seq<Seq<u8>>, i: int) -> bool {
    0 <= i < g.len() && is_last(g, i) && !done.contains(g[i].0)
}

/// Every import of node `i` that is another node has been emitted; imports of
/// itself and of modules outside the set are ignored.
pub open spec fn deps_done(g: Seq<(Seq<u8>, Seq<Seq<u8>>)>, done: Seq<Seq<u8>>, i: int) -> bool {
    forall|k: int|
        0 <= k < g[i].1.len() ==> (#[trigger] g[i].1[k] == g[i].0 || !named(g, g[i].1[k]) || done.contains(
            g[i].1[k],
        ))
}

/// Node `i` may be picked next: pending and, if `need_deps`, with its imports
/// emitted.
pub open spec fn eligible(g: Seq<(Seq<u8>, Seq<Seq<u8>>)>, done: Seq<Seq<u8>>, i: int, need_deps: bool) -> bool {
    pending(g, done, i) && (need_deps ==> deps_done(g, done, i))
}

/// Node `i` is the eligible node with the smallest name.
pub open spec fn is_pick(g: Seq<(Seq<u8>, Seq<Seq<u8>>)>, done: Seq<Seq<u8>>, i: int, need_deps: bool) -> bool {
    eligible(g, done, i, need_deps) && forall|j: int|
        #[trigger] eligible(g, done, j, need_deps) ==> j == i || bytes_lt(g[i].0, g[j].0)
}

/// The eligible node with the smallest name, if any node is eligible.
pub open spec fn pick(g: Seq<(Seq<u8>, Seq<Seq<u8>>)>, done: Seq<Seq<u8>>, need_deps: bool) -> Option<int> {
    if exists|i: int| is_pick(g, done, i, need_deps) {
        Some(choose|i: int| is_pick(g, done, i, need_deps))
    } else {
        None
    }
}

/// How many of the first `n` nodes are pending.
pub open spec fn pending_count(g: Seq<(Seq<u8>, Seq<Seq<u8>>)>, done: Seq<Seq<u8>>, n: int) -> nat
    decreases n,
{
    if n <= 0 {
        0
    } else {
        pending_count(g, done, n - 1) + if pending(g, done, n - 1) { 1nat } else { 0nat }
    }
}

/// Emitting a pending node's name leaves one node fewer pending.
pub proof fn lemma_pending_count_emit(g: Seq<(Seq<u8>, Seq<Seq<u8>>)>, done: Seq<Seq<u8>>, i: int, n: int)
    requires
        pending(g, done, i),
        0 <= n <= g.len(),
    ensures
        pending_count(g, done.push(g[i].0), n) + (if i < n { 1nat } else { 0nat }) == pending_count(g, done, n),
    decreases n,
{
    if n > 0 {
        lemma_pending_count_emit(g, done, i, n - 1);
        let j = n - 1;
        assert(done.push(g[i].0).contains(g[j].0) == (done.contains(g[j].0) || g[j].0 == g[i].0)) by {
            if done.push(g[i].0).contains(g[j].0) {
                let k = choose|k: int| 0 <= k < done.push(g[i].0).len() && done.push(g[i].0)[k] == g[j].0;
                if k < done.len() {
                    assert(done[k] == g[j].0);
                }
            }
            if done.contains(g[j].0) {
                let k = choose|k: int| 0 <= k < done.len() && done[k] == g[j].0;
                assert(done.push(g[i].0)[k] == g[j].0);
            }
            if g[j].0 == g[i].0 {
                assert(done.push(g[i].0)[done.len() as int] == g[j].0);
            }
        }
        if j != i && is_last(g, j) && g[j].0 == g[i].0 {
            if j < i {
                assert(g[i].0 != g[j].0);
            } else {
                assert(g[j].0 != g[i].0);
            }
        }
    }
}

/// Emitting names until none is eligible: with `need_deps`, the dependency
/// order (each module after the in-set modules it imports, the smallest name
/// first among those free to go); without, plain name order.
pub open spec fn emit_from(g: Seq<(Seq<u8>, Seq<Seq<u8>>)>, done: Seq<Seq<u8>>, need_deps: bool) -> Seq<Seq<u8>>
    decreases pending_count(g, done, g.len() as int),
{
    match pick(g, done, need_deps) {
        Some(i) => {
            proof {
                lemma_pending_count_emit(g, done, i, g.len() as int);
            }
            emit_from(g, done.push(g[i].0), need_deps)
        },
        None => done,
    }
}

/// The compile order of a dependency graph: every module after the modules
/// of the set it imports (imports outside the set, and of itself, ignored),
/// ties broken by name; a later node with the same name as an earlier one
/// replaces it. On an import cycle, the modules left over, in name order.
pub open spec fn topo_spec(g: Seq<(Seq<u8>, Seq<Seq<u8>>)>) -> Result<Seq<Seq<u8>>, Seq<Seq<u8>>> {
    let order = emit_from(g, Seq::empty(), true);
    if pending_count(g, order, g.len() as int) == 0 {
        Ok(order)
    } else {
        Err(emit_from(g, order, false).subrange(order.len() as int, emit_from(g, order, false).len() as int))
    }
}

/// Whether `list` holds the name `name`.
fn list_has(list: &Vec<String>, name: &[u8]) -> (b: bool)
    ensures
        b == names_of(list@).contains(name@),
{
    let mut i: usize = 0;
    while i < list.len()
        invariant
            i <= list@.len(),
            forall|k: int| 0 <= k < i ==> names_of(list@)[k] != name@,
        decreases list@.len() - i,
    {
        if bytes_equal(list[i].as_str().as_bytes(), name) {
            assert(names_of(list@)[i as int] == name@);
            return true;
        }
        i = i + 1;
    }
    false
}

/// Whether some node is named `name`.
fn has_node(nodes: &[(String, Vec<String>)], name: &[u8]) -> (b: bool)
    ensures
        b == named(graph_of(nodes@), name@),
{
    let ghost g = graph_of(nodes@);
    let mut j: usize = 0;
    while j < nodes.len()
        invariant
            g == graph_of(nodes@),
            j <= nodes@.len(),
            forall|k: int| 0 <= k < j ==> g[k].0 != name@,
        decreases nodes@.len() - j,
    {
        if bytes_equal(nodes[j].0.as_str().as_bytes(), name) {
            assert(g[j as int].0 == name@);
            return true;
        }
        j = j + 1;
    }
    false
}

/// Whether node `i` may be picked next.
fn is_eligible(nodes: &[(String, Vec<String>)], done: &Vec<String>, i: usize, need_deps: bool) -> (b: bool)
    requires
        i < nodes@.len(),
    ensures
        b == eligible(graph_of(nodes@), names_of(done@), i as int, need_deps),
{
    let ghost g = graph_of(nodes@);
    let name = nodes[i].0.as_str().as_bytes();
    assert(g.len() == nodes@.len());
    assert(g[i as int].0 == utf8_of(nodes@[i as int].0@));
    let mut j: usize = i + 1;
    while j < nodes.len()
        invariant
            g == graph_of(nodes@),
            g.len() == nodes@.len(),
            name@ == g[i as int].0,
            i < j <= nodes@.len(),
            forall|k: int| i < k < j ==> #[trigger] g[k].0 != g[i as int].0,
        decreases nodes@.len() - j,
    {
        assert(g[j as int].0 == utf8_of(nodes@[j as int].0@));
        if bytes_equal(nodes[j].0.as_str().as_bytes(), name) {
            return false;
        }
        j = j + 1;
    }
    if list_has(done, name) {
        return false;
    }
    if !need_deps {
        return true;
    }
    let imports = &nodes[i].1;
    assert(g[i as int].1 == imports@.map_values(|d: String| utf8_of(d@)));
    let mut k: usize = 0;
    while k < imports.len()
        invariant
            g == graph_of(nodes@),
            g.len() == nodes@.len(),
            i < nodes@.len(),
            need_deps,
            g[i as int].1 == imports@.map_values(|d: String| utf8_of(d@)),
            name@ == g[i as int].0,
            imports@ == nodes@[i as int].1@,
            k <= imports@.len(),
            forall|q: int|
                0 <= q < k ==> (#[trigger] g[i as int].1[q] == g[i as int].0 || !named(g, g[i as int].1[q])
                    || names_of(done@).contains(g[i as int].1[q])),
        decreases imports@.len() - k,
    {
        let d = imports[k].as_str().as_bytes();
        assert(d@ == g[i as int].1[k as int]);
        if !bytes_equal(d, name) && has_node(nodes, d) && !list_has(done, d) {
            assert(!(g[i as int].1[k as int] == g[i as int].0 || !named(g, g[i as int].1[k as int])
                || names_of(done@).contains(g[i as int].1[k as int])));
            assert(!deps_done(g, names_of(done@), i as int));
            return false;
        }
        k = k + 1;
    }
    true
}

/// The eligible node with the smallest name, if any.
fn pick_next(nodes: &[(String, Vec<String>)], done: &Vec<String>, need_deps: bool) -> (r: Option<usize>)
    ensures
        match r {
            Some(i) => pick(graph_of(nodes@), names_of(done@), need_deps) == Some(i as int),
            None => pick(graph_of(nodes@), names_of(done@), need_deps) is None,
        },
{
    let ghost g = graph_of(nodes@);
    let ghost dn = names_of(done@);
    let mut best: Option<usize> = None;
    let mut i: usize = 0;
    while i < nodes.len()
        invariant
            g == graph_of(nodes@),
            dn == names_of(done@),
            i <= nodes@.len(),
            match best {
                Some(b) => b < i && eligible(g, dn, b as int, need_deps) && forall|j: int|
                    0 <= j < i && #[trigger] eligible(g, dn, j, need_deps) ==> j == b || bytes_lt(
                        g[b as int].0,
                        g[j].0,
                    ),
                None => forall|j: int| 0 <= j < i ==> !#[trigger] eligible(g, dn, j, need_deps),
            },
        decreases nodes@.len() - i,
    {
        if is_eligible(nodes, done, i, need_deps) {
            match best {
                None => {
                    best = Some(i);
                },
                Some(b) => {
                    let better = bytes_less(nodes[i].0.as_str().as_bytes(), nodes[b].0.as_str().as_bytes());
                    proof {
                        // Two last-of-name nodes have different names.
                        assert(g[i as int].0 != g[b as int].0) by {
                            assert(is_last(g, b as int));
                        }
                        lemma_bytes_lt_total(g[i as int].0, g[b as int].0);
                        if better {
                            assert forall|j: int|
                                0 <= j < i + 1 && #[trigger] eligible(g, dn, j, need_deps) implies j == i
                                || bytes_lt(g[i as int].0, g[j].0) by {
                                if j != i && j != b {
                                    lemma_bytes_lt_transitive(g[i as int].0, g[b as int].0, g[j].0);
                                }
                            }
                        }
                    }
                    if better {
                        best = Some(i);
                    }
                },
            }
        }
        i = i + 1;
    }
    match best {
        Some(b) => {
            proof {
                assert forall|j: int| #[trigger] eligible(g, dn, j, need_deps) implies j == b || bytes_lt(
                    g[b as int].0,
                    g[j].0,
                ) by {}
                assert(is_pick(g, dn, b as int, need_deps));
                let c = choose|c: int| is_pick(g, dn, c, need_deps);
                if c != b {
                    lemma_bytes_lt_asymmetric(g[c].0, g[b as int].0);
                }
            }
            Some(b)
        },
        None => {
            assert(!exists|c: int| is_pick(g, dn, c, need_deps));
            None
        },
    }
}

/// Emit names into `done` until none is eligible (see [`emit_from`]).
fn emit_all(nodes: &[(String, Vec<String>)], done: &mut Vec<String>, need_deps: bool)
    ensures
        names_of(final(done)@) == emit_from(graph_of(nodes@), names_of(old(done)@), need_deps),
{
    let ghost g = graph_of(nodes@);
    let ghost target = emit_from(g, names_of(done@), need_deps);
    loop
        invariant
            g == graph_of(nodes@),
            target == emit_from(g, names_of(done@), need_deps),
            target == emit_from(g, names_of(old(done)@), need_deps),
        decreases pending_count(g, names_of(done@), g.len() as int),
    {
        match pick_next(nodes, done, need_deps) {
            None => {
                assert(emit_from(g, names_of(done@), need_deps) == names_of(done@));
                return;
            },
            Some(i) => {
                let ghost before = names_of(done@);
                assert(g[i as int].0 == utf8_of(nodes@[i as int].0@));
                let name = nodes[i].0.clone();
                done.push(name);
                proof {
                    assert(names_of(done@) =~= before.push(g[i as int].0));
                    lemma_pending_count_emit(g, before, i as int, g.len() as int);
                }
            },
        }
    }
}

/// Topologically sort `nodes` (each a module name and its imports) so every
/// module comes after those it imports; imports outside the node set (and of
/// a module itself) are ignored, and ties break by name for a reproducible
/// build. On an import cycle, the modules left over, in name order.
pub fn topo_sort(nodes: &[(String, Vec<String>)]) -> (r: Result<Vec<String>, Vec<String>>)
    ensures
        match r {
            Ok(order) => topo_spec(graph_of(nodes@)) == Ok::<Seq<Seq<u8>>, Seq<Seq<u8>>>(names_of(order@)),
            Err(left) => topo_spec(graph_of(nodes@)) == Err::<Seq<Seq<u8>>, Seq<Seq<u8>>>(names_of(left@)),
        },
{
    let mut order: Vec<String> = Vec::new();
    assert(names_of(order@) =~= Seq::<Seq<u8>>::empty());
    emit_all(nodes, &mut order, true);
    let ghost g = graph_of(nodes@);
    let mut stuck = false;
    let mut i: usize = 0;
    while i < nodes.len()
        invariant
            g == graph_of(nodes@),
            i <= nodes@.len(),
            stuck ==> exists|j: int| pending(g, names_of(order@), j),
            !stuck ==> forall|j: int| 0 <= j < i ==> !#[trigger] pending(g, names_of(order@), j),
        decreases nodes@.len() - i,
    {
        if is_eligible(nodes, &order, i, false) {
            stuck = true;
        }
        i = i + 1;
    }
    if !stuck {
        proof {
            if pending_count(g, names_of(order@), g.len() as int) > 0 {
                lemma_pending_exists(g, names_of(order@), g.len() as int);
            }
        }
        return Ok(order);
    }
    proof {
        let j = choose|j: int| pending(g, names_of(order@), j);
        lemma_pending_count_pos(g, names_of(order@), j, g.len() as int);
    }
    let done = order.len();
    let mut all = order.clone();
    emit_all(nodes, &mut all, false);
    proof {
        lemma_emit_grows(g, names_of(order@), false);
    }
    let mut left: Vec<String> = Vec::new();
    let mut k = done;
    while k < all.len()
        invariant
            done <= k <= all@.len(),
            names_of(left@) =~= names_of(all@).subrange(done as int, k as int),
        decreases all@.len() - k,
    {
        let x = all[k].clone();
        let ghost before = names_of(left@);
        left.push(x);
        assert(names_of(left@) =~= before.push(utf8_of(all@[k as int]@)));
        k = k + 1;
    }
    Err(left)
}

/// A pending node counts.
proof fn lemma_pending_count_pos(g: Seq<(Seq<u8>, Seq<Seq<u8>>)>, done: Seq<Seq<u8>>, j: int, n: int)
    requires
        pending(g, done, j),
        j < n,
    ensures
        pending_count(g, done, n) > 0,
    decreases n,
{
    if n - 1 != j {
        lemma_pending_count_pos(g, done, j, n - 1);
    }
}

/// A positive count has a pending node behind it.
proof fn lemma_pending_exists(g: Seq<(Seq<u8>, Seq<Seq<u8>>)>, done: Seq<Seq<u8>>, n: int)
    requires
        pending_count(g, done, n) > 0,
    ensures
        exists|i: int| pending(g, done, i),
    decreases n,
{
    if n > 0 && !pending(g, done, n - 1) {
        lemma_pending_exists(g, done, n - 1);
    }
}

/// Everything emitted was there already or is the name of a node.
pub proof fn lemma_emit_names(g: Seq<(Seq<u8>, Seq<Seq<u8>>)>, done: Seq<Seq<u8>>, need_deps: bool, x: Seq<u8>)
    requires
        emit_from(g, done, need_deps).contains(x),
    ensures
        done.contains(x) || named(g, x),
    decreases pending_count(g, done, g.len() as int),
{
    match pick(g, done, need_deps) {
        Some(i) => {
            lemma_pending_count_emit(g, done, i, g.len() as int);
            lemma_emit_names(g, done.push(g[i].0), need_deps, x);
            if done.push(g[i].0).contains(x) {
                let k = choose|k: int| 0 <= k < done.push(g[i].0).len() && done.push(g[i].0)[k] == x;
                if k < done.len() {
                    assert(done[k] == x);
                } else {
                    assert(g[i].0 == x);
                }
            }
        },
        None => {},
    }
}

/// Emitting only adds names after the ones already there.
proof fn lemma_emit_grows(g: Seq<(Seq<u8>, Seq<Seq<u8>>)>, done: Seq<Seq<u8>>, need_deps: bool)
    ensures
        emit_from(g, done, need_deps).len() >= done.len(),
        emit_from(g, done, need_deps).subrange(0, done.len() as int) == done,
    decreases pending_count(g, done, g.len() as int),
{
    match pick(g, done, need_deps) {
        Some(i) => {
            lemma_pending_count_emit(g, done, i, g.len() as int);
            lemma_emit_grows(g, done.push(g[i].0), need_deps);
            let e = emit_from(g, done.push(g[i].0), need_deps);
            assert(e.subrange(0, done.len() as int) =~= e.subrange(0, (done.len() + 1) as int).subrange(0, done.len() as int));
        },
        None => {
            assert(done.subrange(0, done.len() as int) =~= done);
        },
    }
}

/// In `order`, every module comes after each module of `g` it imports: for the
/// node `i` that stands for the name at position `p`, every import that is
/// another node's name is found at some earlier position.
pub open spec fn imports_first(g: Seq<(Seq<u8>, Seq<Seq<u8>>)>, order: Seq<Seq<u8>>) -> bool {
    forall|p: int, i: int, k: int|
        0 <= p < order.len() && 0 <= i < g.len() && is_last(g, i) && #[trigger] order[p] == g[i].0 && 0 <= k
            < g[i].1.len() && #[trigger] g[i].1[k] != g[i].0 && named(g, g[i].1[k]) ==> exists|q: int|
            0 <= q < p && order[q] == g[i].1[k]
}

/// Two last-of-their-name nodes with the same name are the same node.
proof fn lemma_last_unique(g: Seq<(Seq<u8>, Seq<Seq<u8>>)>, i: int, j: int)
    requires
        0 <= i < g.len(),
        0 <= j < g.len(),
        is_last(g, i),
        is_last(g, j),
        g[i].0 == g[j].0,
    ensures
        i == j,
{
    if i < j {
        assert(g[j].0 != g[i].0);
    } else if j < i {
        assert(g[i].0 != g[j].0);
    }
}

/// Emitting in dependency order keeps every module after its imports.
proof fn lemma_emit_imports_first(g: Seq<(Seq<u8>, Seq<Seq<u8>>)>, done: Seq<Seq<u8>>)
    requires
        imports_first(g, done),
    ensures
        imports_first(g, emit_from(g, done, true)),
    decreases pending_count(g, done, g.len() as int),
{
    match pick(g, done, true) {
        Some(i0) => {
            lemma_pending_count_emit(g, done, i0, g.len() as int);
            let next = done.push(g[i0].0);
            assert(eligible(g, done, i0, true));
            assert forall|p: int, i: int, k: int|
                0 <= p < next.len() && 0 <= i < g.len() && is_last(g, i) && #[trigger] next[p] == g[i].0 && 0
                    <= k < g[i].1.len() && #[trigger] g[i].1[k] != g[i].0 && named(g, g[i].1[k]) implies exists|q: int|
                0 <= q < p && next[q] == g[i].1[k] by {
                if p < done.len() {
                    assert(done[p] == g[i].0);
                    let q = choose|q: int| 0 <= q < p && done[q] == g[i].1[k];
                    assert(next[q] == g[i].1[k]);
                } else {
                    lemma_last_unique(g, i, i0);
                    assert(deps_done(g, done, i0));
                    assert(g[i0].1[k] == g[i0].0 || !named(g, g[i0].1[k]) || done.contains(g[i0].1[k]));
                    let q = choose|q: int| 0 <= q < done.len() && done[q] == g[i].1[k];
                    assert(next[q] == g[i].1[k]);
                }
            }
            lemma_emit_imports_first(g, next);
        },
        None => {},
    }
}

/// The compile order puts every module after each module of the set that it
/// imports (imports of itself and of modules outside the set aside).
pub proof fn law_topo_imports_first(g: Seq<(Seq<u8>, Seq<Seq<u8>>)>, order: Seq<Seq<u8>>)
    requires
        topo_spec(g) == Ok::<Seq<Seq<u8>>, Seq<Seq<u8>>>(order),
    ensures
        imports_first(g, order),
{
    lemma_emit_imports_first(g, Seq::empty());
}

/// The compile order names exactly the modules of the set.
pub proof fn law_topo_complete(g: Seq<(Seq<u8>, Seq<Seq<u8>>)>, order: Seq<Seq<u8>>, n: Seq<u8>)
    requires
        topo_spec(g) == Ok::<Seq<Seq<u8>>, Seq<Seq<u8>>>(order),
    ensures
        order.contains(n) <==> named(g, n),
{
    let o = emit_from(g, Seq::empty(), true);
    if order.contains(n) {
        lemma_emit_names(g, Seq::empty(), true, n);
    }
    if named(g, n) && !order.contains(n) {
        let j = choose|j: int| 0 <= j < g.len() && #[trigger] g[j].0 == n;
        let last = last_of(g, j);
        lemma_pending_count_pos(g, o, last, g.len() as int);
    }
}

/// `order` is a compile order for `g`: it names every module of `g`, each
/// after the modules of `g` it imports.
pub open spec fn valid_order(g: Seq<(Seq<u8>, Seq<Seq<u8>>)>, order: Seq<Seq<u8>>) -> bool {
    &&& forall|n: Seq<u8>| named(g, n) ==> order.contains(n)
    &&& imports_first(g, order)
}

/// `x` is the name of a node still pending.
pub open spec fn pending_name(g: Seq<(Seq<u8>, Seq<Seq<u8>>)>, done: Seq<Seq<u8>>, x: Seq<u8>) -> bool {
    exists|i: int| pending(g, done, i) && #[trigger] g[i].0 == x
}

/// Emitting ends where no node can be picked.
proof fn lemma_emit_stuck(g: Seq<(Seq<u8>, Seq<Seq<u8>>)>, done: Seq<Seq<u8>>, need_deps: bool)
    ensures
        pick(g, emit_from(g, done, need_deps), need_deps) is None,
    decreases pending_count(g, done, g.len() as int),
{
    match pick(g, done, need_deps) {
        Some(i) => {
            lemma_pending_count_emit(g, done, i, g.len() as int);
            lemma_emit_stuck(g, done.push(g[i].0), need_deps);
        },
        None => {},
    }
}

/// The eligible node among the first `n` with the smallest name, if any.
proof fn lemma_min_eligible(g: Seq<(Seq<u8>, Seq<Seq<u8>>)>, done: Seq<Seq<u8>>, need_deps: bool, n: int) -> (b: Option<int>)
    requires
        0 <= n <= g.len(),
    ensures
        match b {
            Some(b) => 0 <= b < n && eligible(g, done, b, need_deps) && forall|j: int|
                0 <= j < n && #[trigger] eligible(g, done, j, need_deps) ==> j == b || bytes_lt(g[b].0, g[j].0),
            None => forall|j: int| 0 <= j < n ==> !#[trigger] eligible(g, done, j, need_deps),
        },
    decreases n,
{
    if n == 0 {
        None
    } else {
        let i = n - 1;
        let prev = lemma_min_eligible(g, done, need_deps, i);
        if !eligible(g, done, i, need_deps) {
            prev
        } else {
            match prev {
                None => Some(i),
                Some(b) => {
                    assert(g[i].0 != g[b].0) by {
                        assert(is_last(g, b));
                    }
                    lemma_bytes_lt_total(g[i].0, g[b].0);
                    if bytes_lt(g[i].0, g[b].0) {
                        assert forall|j: int| 0 <= j < n && #[trigger] eligible(g, done, j, need_deps) implies j == i
                            || bytes_lt(g[i].0, g[j].0) by {
                            if j != i && j != b {
                                lemma_bytes_lt_transitive(g[i].0, g[b].0, g[j].0);
                            }
                        }
                        Some(i)
                    } else {
                        Some(b)
                    }
                },
            }
        }
    }
}

/// A node that is eligible makes the pick succeed.
proof fn lemma_eligible_picks(g: Seq<(Seq<u8>, Seq<Seq<u8>>)>, done: Seq<Seq<u8>>, need_deps: bool, i: int)
    requires
        eligible(g, done, i, need_deps),
    ensures
        pick(g, done, need_deps) is Some,
{
    let b = lemma_min_eligible(g, done, need_deps, g.len() as int);
    assert(0 <= i < g.len());
    let bb = b->0;
    assert(is_pick(g, done, bb, need_deps));
}

/// The first position from `p` on where `order` names a pending node.
proof fn lemma_first_pending(
    g: Seq<(Seq<u8>, Seq<Seq<u8>>)>,
    done: Seq<Seq<u8>>,
    order: Seq<Seq<u8>>,
    p: int,
    q: int,
) -> (f: int)
    requires
        0 <= p <= q < order.len(),
        pending_name(g, done, order[q]),
    ensures
        p <= f <= q,
        pending_name(g, done, order[f]),
        forall|r: int| p <= r < f ==> !pending_name(g, done, #[trigger] order[r]),
    decreases q - p,
{
    if pending_name(g, done, order[p]) {
        p
    } else {
        lemma_first_pending(g, done, order, p + 1, q)
    }
}

/// The sort fails only on an import cycle: when it reports modules left over,
/// no order of the modules puts each one after the modules it imports.
pub proof fn law_topo_fails_only_without_order(
    g: Seq<(Seq<u8>, Seq<Seq<u8>>)>,
    left: Seq<Seq<u8>>,
    order: Seq<Seq<u8>>,
)
    requires
        topo_spec(g) == Err::<Seq<Seq<u8>>, Seq<Seq<u8>>>(left),
    ensures
        !valid_order(g, order),
{
    let done = emit_from(g, Seq::empty(), true);
    lemma_emit_stuck(g, Seq::empty(), true);
    lemma_pending_exists(g, done, g.len() as int);
    let i0 = choose|i: int| pending(g, done, i);
    if valid_order(g, order) {
        assert(named(g, g[i0].0));
        assert(order.contains(g[i0].0));
        let q = choose|q: int| 0 <= q < order.len() && order[q] == g[i0].0;
        assert(pending_name(g, done, order[q]));
        let p = lemma_first_pending(g, done, order, 0, q);
        let i = choose|i: int| pending(g, done, i) && #[trigger] g[i].0 == order[p];
        assert forall|k: int| 0 <= k < g[i].1.len() implies (#[trigger] g[i].1[k] == g[i].0 || !named(g, g[i].1[k])
            || done.contains(g[i].1[k])) by {
            let x = g[i].1[k];
            if x != g[i].0 && named(g, x) {
                assert(order[p] == g[i].0);
                let r = choose|r: int| 0 <= r < p && order[r] == x;
                assert(!pending_name(g, done, order[r]));
                let j0 = choose|j: int| 0 <= j < g.len() && #[trigger] g[j].0 == x;
                let j = last_of(g, j0);
                if !done.contains(x) {
                    assert(pending(g, done, j));
                    assert(pending_name(g, done, x));
                }
            }
        }
        assert(eligible(g, done, i, true));
        lemma_eligible_picks(g, done, true, i);
    }
}

/// A successful sort gives a compile order: every module, each after the
/// modules it imports.
pub proof fn law_topo_ok_is_valid(g: Seq<(Seq<u8>, Seq<Seq<u8>>)>, order: Seq<Seq<u8>>)
    requires
        topo_spec(g) == Ok::<Seq<Seq<u8>>, Seq<Seq<u8>>>(order),
    ensures
        valid_order(g, order),
{
    law_topo_imports_first(g, order);
    assert forall|n: Seq<u8>| named(g, n) implies order.contains(n) by {
        law_topo_complete(g, order, n);
    }
}

/// Position `p` of an emitted sequence past `done` is the pick after the
/// names before it.
proof fn lemma_emit_picks(g: Seq<(Seq<u8>, Seq<Seq<u8>>)>, done: Seq<Seq<u8>>, need_deps: bool, p: int)
    requires
        done.len() <= p < emit_from(g, done, need_deps).len(),
    ensures
        pick(g, emit_from(g, done, need_deps).subrange(0, p), need_deps) matches Some(i) && 0 <= i < g.len()
            && emit_from(g, done, need_deps)[p] == g[i].0,
    decreases pending_count(g, done, g.len() as int),
{
    match pick(g, done, need_deps) {
        Some(i) => {
            let d2 = done.push(g[i].0);
            lemma_pending_count_emit(g, done, i, g.len() as int);
            let e = emit_from(g, d2, need_deps);
            assert(emit_from(g, done, need_deps) == e);
            lemma_emit_grows(g, d2, need_deps);
            if p == done.len() {
                assert(e.subrange(0, p) =~= done) by {
                    assert(e.subrange(0, p) =~= e.subrange(0, d2.len() as int).subrange(0, p));
                }
                assert(e[p] == e.subrange(0, d2.len() as int)[p]);
                assert(is_pick(g, done, i, need_deps) && eligible(g, done, i, need_deps));
            } else {
                lemma_emit_picks(g, d2, need_deps, p);
            }
        },
        None => {},
    }
}

/// `a` comes no later than `b` in name order: where they first differ,
/// within both, `a` has the smaller name.
pub open spec fn order_le(a: Seq<Seq<u8>>, b: Seq<Seq<u8>>) -> bool {
    forall|p: int|
        0 <= p < a.len() && p < b.len() && a.subrange(0, p) == b.subrange(0, p) && a[p] != b[p] ==> bytes_lt(
            #[trigger] a[p],
            b[p],
        )
}

/// The compile order is the least in name order among all orders of the
/// modules (each named once) that put every module after its imports.
pub proof fn law_topo_least(g: Seq<(Seq<u8>, Seq<Seq<u8>>)>, order: Seq<Seq<u8>>, other: Seq<Seq<u8>>)
    requires
        topo_spec(g) == Ok::<Seq<Seq<u8>>, Seq<Seq<u8>>>(order),
        valid_order(g, other),
        forall|q: int| 0 <= q < other.len() ==> named(g, #[trigger] other[q]),
        forall|q: int, r: int| 0 <= q < r < other.len() ==> other[q] != other[r],
    ensures
        order_le(order, other),
{
    assert forall|p: int|
        0 <= p < order.len() && p < other.len() && order.subrange(0, p) == other.subrange(0, p) && order[p]
            != other[p] implies bytes_lt(#[trigger] order[p], other[p]) by {
        let d = order.subrange(0, p);
        lemma_emit_picks(g, Seq::empty(), true, p);
        let i = pick(g, d, true)->0;
        assert(is_pick(g, d, i, true));
        let x = other[p];
        assert(named(g, x));
        let j0 = choose|j: int| 0 <= j < g.len() && #[trigger] g[j].0 == x;
        let j = last_of(g, j0);
        assert(!d.contains(x)) by {
            if d.contains(x) {
                let q = choose|q: int| 0 <= q < d.len() && d[q] == x;
                assert(other.subrange(0, p)[q] == other[q]);
            }
        }
        assert forall|k: int| 0 <= k < g[j].1.len() implies (#[trigger] g[j].1[k] == g[j].0 || !named(
            g,
            g[j].1[k],
        ) || d.contains(g[j].1[k])) by {
            let y = g[j].1[k];
            if y != g[j].0 && named(g, y) {
                assert(other[p] == g[j].0);
                let q = choose|q: int| 0 <= q < p && other[q] == y;
                assert(other.subrange(0, p)[q] == y);
            }
        }
        assert(eligible(g, d, j, true));
    }
}

/// The last node with the name of node `j`.
proof fn last_of(g: Seq<(Seq<u8>, Seq<Seq<u8>>)>, j: int) -> (l: int)
    requires
        0 <= j < g.len(),
    ensures
        j <= l < g.len(),
        is_last(g, l),
        g[l].0 == g[j].0,
    decreases g.len() - j,
{
    if exists|m: int| j < m < g.len() && #[trigger] g[m].0 == g[j].0 {
        let m = choose|m: int| j < m < g.len() && #[trigger] g[m].0 == g[j].0;
        last_of(g, m)
    } else {
        j
    }
}

// ---------------------------------------------------------------------------
// The compile set
// ---------------------------------------------------------------------------

/// A source file to compile, with the module it declares (objects are named by
/// the module, not the file).
#[derive(Debug, PartialEq, Eq)]
pub struct Candidate {
    pub file: String,
    pub module: String,
}

/// Why a source tree cannot be compiled as given.
#[derive(Debug, PartialEq, Eq)]
pub enum ResolveError {
    /// The pack-only manifest names a file the tree does not have.
    MissingPackOnly(String),
    /// A file to compile is not Oberon source.
    NotSource(String, HeaderError),
    /// Two files (the first, then the second) declare the same module.
    DuplicateModule(String, String, String),
    /// The imports form a cycle among these modules.
    Cycle(Vec<String>),
}

/// The text of a list of strings.
pub open spec fn texts(v: Seq<String>) -> Seq<Seq<char>> {
    v.map_values(|s: String| s@)
}

/// Whether `list` holds `name`.
fn has_text(list: &[String], name: &String) -> (b: bool)
    ensures
        b == texts(list@).contains(name@),
{
    let mut i: usize = 0;
    while i < list.len()
        invariant
            i <= list@.len(),
            forall|k: int| 0 <= k < i ==> texts(list@)[k] != name@,
        decreases list@.len() - i,
    {
        if list[i] == *name {
            assert(texts(list@)[i as int] == name@);
            return true;
        }
        i = i + 1;
    }
    false
}

/// The first name of `pack` that `visible` lacks, if any.
pub open spec fn first_missing(pack: Seq<Seq<char>>, visible: Seq<Seq<char>>) -> Option<int> {
    if exists|i: int| 0 <= i < pack.len() && !visible.contains(pack[i]) {
        Some(choose|i: int| 0 <= i < pack.len() && !visible.contains(pack[i]) && forall|j: int|
            0 <= j < i ==> visible.contains(#[trigger] pack[j]))
    } else {
        None
    }
}

/// Check that every file the pack-only manifest lists is in the tree.
pub fn check_pack(pack: &[String], visible: &[String]) -> (r: Result<(), ResolveError>)
    ensures
        match r {
            Ok(()) => first_missing(texts(pack@), texts(visible@)) is None,
            Err(ResolveError::MissingPackOnly(name)) => first_missing(texts(pack@), texts(visible@))
                matches Some(i) && texts(pack@)[i] == name@,
            Err(_) => false,
        },
{
    let ghost p = texts(pack@);
    let ghost v = texts(visible@);
    let mut i: usize = 0;
    while i < pack.len()
        invariant
            p == texts(pack@),
            v == texts(visible@),
            i <= pack@.len(),
            forall|j: int| 0 <= j < i ==> v.contains(#[trigger] p[j]),
        decreases pack@.len() - i,
    {
        if !has_text(visible, &pack[i]) {
            proof {
                assert(p[i as int] == pack@[i as int]@);
                let k = choose|k: int| 0 <= k < p.len() && !v.contains(p[k]) && forall|j: int|
                    0 <= j < k ==> v.contains(#[trigger] p[j]);
                if k < i {
                    assert(v.contains(p[k]));
                } else if k > i {
                    assert(v.contains(p[i as int]));
                }
            }
            return Err(ResolveError::MissingPackOnly(pack[i].clone()));
        }
        i = i + 1;
    }
    Ok(())
}

/// The files to compile: the visible files the manifest does not list, in order.
pub open spec fn to_compile(pack: Seq<Seq<char>>, visible: Seq<Seq<char>>) -> Seq<Seq<char>> {
    visible.filter(|f: Seq<char>| !pack.contains(f))
}

/// The files to compile: every visible file not in the pack-only manifest.
pub fn compile_candidates(pack: &[String], visible: &[String]) -> (files: Vec<String>)
    ensures
        texts(files@) == to_compile(texts(pack@), texts(visible@)),
{
    let ghost p = texts(pack@);
    let ghost v = texts(visible@);
    let mut out: Vec<String> = Vec::new();
    let mut i: usize = 0;
    while i < visible.len()
        invariant
            p == texts(pack@),
            v == texts(visible@),
            i <= visible@.len(),
            texts(out@) == to_compile(p, v.subrange(0, i as int)),
        decreases visible@.len() - i,
    {
        let listed = has_text(pack, &visible[i]);
        proof {
            reveal(Seq::filter);
            assert(v.subrange(0, i + 1).drop_last() =~= v.subrange(0, i as int));
            assert(v.subrange(0, i + 1).last() == visible@[i as int]@);
        }
        if !listed {
            let f = visible[i].clone();
            out.push(f);
            assert(texts(out@) =~= to_compile(p, v.subrange(0, i as int)).push(visible@[i as int]@));
        }
        i = i + 1;
    }
    assert(v.subrange(0, visible@.len() as int) =~= v);
    out
}

/// The modules read so far, each with its imports, and the files declaring them.
pub struct Resolver {
    nodes: Vec<(String, Vec<String>)>,
    files: Vec<String>,
}

/// The view of a resolver: (module, imports) per file, and the files.
pub struct ResolverState {
    pub modules: Seq<(Seq<char>, Seq<Seq<char>>)>,
    pub files: Seq<Seq<char>>,
}

impl View for Resolver {
    type V = ResolverState;

    closed spec fn view(&self) -> ResolverState {
        ResolverState {
            modules: self.nodes@.map_values(|n: (String, Vec<String>)| (n.0@, texts(n.1@))),
            files: texts(self.files@),
        }
    }
}

impl Resolver {
    /// Nodes and files pair up, and no two files declare the same module.
    pub closed spec fn wf(&self) -> bool {
        &&& self.nodes@.len() == self.files@.len()
        &&& forall|i: int, j: int|
            0 <= i < j < self.nodes@.len() ==> #[trigger] self.nodes@[i].0@ != #[trigger] self.nodes@[j].0@
    }

    /// Nothing read yet.
    pub fn new() -> (r: Resolver)
        ensures
            r.wf(),
            r@.modules.len() == 0,
            r@.files.len() == 0,
    {
        Resolver { nodes: Vec::new(), files: Vec::new() }
    }

    /// Read the header of source file `file`: fails if it is not Oberon source
    /// or declares a module another file already declared.
    pub fn add_source(&mut self, file: String, src: &[u8]) -> (r: Result<(), ResolveError>)
        requires
            old(self).wf(),
        ensures
            final(self).wf(),
            match header_spec(src@) {
                Err(e) => r matches Err(ResolveError::NotSource(f, he)) && f@ == file@ && he@ == e
                    && final(self)@ == old(self)@,
                Ok((m, imps)) => if exists|k: int| 0 <= k < old(self)@.modules.len() && old(self)@.modules[k].0 == m {
                    r matches Err(ResolveError::DuplicateModule(first, second, module)) && second@ == file@
                        && module@ == m && exists|k: int|
                        0 <= k < old(self)@.modules.len() && old(self)@.modules[k].0 == m
                            && old(self)@.files[k] == first@
                } else {
                    r is Ok && final(self)@ == (ResolverState {
                        modules: old(self)@.modules.push((m, imps)),
                        files: old(self)@.files.push(file@),
                    })
                },
            },
    {
        let (module, imports) = match parse_header(src) {
            Ok(h) => h,
            Err(e) => return Err(ResolveError::NotSource(file, e)),
        };
        let mut k: usize = 0;
        while k < self.nodes.len()
            invariant
                self.wf(),
                self@ == old(self)@,
                k <= self.nodes@.len(),
                forall|j: int| 0 <= j < k ==> self.nodes@[j].0@ != module@,
                header_spec(src@) == Ok::<(Seq<char>, Seq<Seq<char>>), HeaderFault>((module@, texts(imports@))),
            decreases self.nodes@.len() - k,
        {
            if self.nodes[k].0 == module {
                let first = self.files[k].clone();
                proof {
                    assert(self@.modules[k as int].0 == module@);
                    assert(self@.files[k as int] == first@);
                    assert(old(self)@.modules[k as int].0 == module@ && old(self)@.files[k as int] == first@);
                }
                let r = Err(ResolveError::DuplicateModule(first, file, module));
                return r;
            }
            k = k + 1;
        }
        let ghost imps = texts(imports@);
        proof {
            assert forall|j: int| 0 <= j < old(self)@.modules.len() implies old(self)@.modules[j].0 != module@ by {
                assert(self.nodes@[j].0@ != module@);
            }
        }
        self.nodes.push((module, imports));
        self.files.push(file);
        assert(self@.modules =~= old(self)@.modules.push((module@, imps)));
        assert(self@.files =~= old(self)@.files.push(file@));
        Ok(())
    }

    /// The node declaring module `name` (as UTF-8 bytes), if any.
    fn file_of(&self, name: &[u8]) -> (r: Option<usize>)
        requires
            self.wf(),
        ensures
            match r {
                Some(k) => k < self@.files.len() && utf8_of(self@.modules[k as int].0) == name@,
                None => !named(graph_of(self.nodes@), name@),
            },
    {
        let ghost g = graph_of(self.nodes@);
        let mut k: usize = 0;
        while k < self.nodes.len()
            invariant
                g == graph_of(self.nodes@),
                self.wf(),
                k <= self.nodes@.len(),
                forall|j: int| 0 <= j < k ==> g[j].0 != name@,
            decreases self.nodes@.len() - k,
        {
            assert(g[k as int].0 == utf8_of(self.nodes@[k as int].0@));
            if bytes_equal(self.nodes[k].0.as_str().as_bytes(), name) {
                return Some(k);
            }
            k = k + 1;
        }
        None
    }

    /// The graph of the modules read, for [`topo_sort`].
    pub closed spec fn graph(&self) -> Seq<(Seq<u8>, Seq<Seq<u8>>)> {
        graph_of(self.nodes@)
    }

    /// The compile order: each module after the modules it imports, with the
    /// file that declares it; fails on an import cycle.
    #[verifier::spinoff_prover]
    pub fn finish(&self) -> (r: Result<Vec<Candidate>, ResolveError>)
        requires
            self.wf(),
        ensures
            match topo_spec(self.graph()) {
                Ok(order) => r matches Ok(c) && c@.len() == order.len() && forall|i: int|
                    0 <= i < order.len() ==> {
                        &&& utf8_of((#[trigger] c@[i]).module@) == order[i]
                        &&& exists|k: int|
                            0 <= k < self@.files.len() && utf8_of(self@.modules[k].0) == order[i]
                                && self@.files[k] == c@[i].file@
                    },
                Err(left) => r matches Err(ResolveError::Cycle(names)) && names_of(names@) == left,
            },
    {
        match topo_sort(self.nodes.as_slice()) {
            Err(left) => Err(ResolveError::Cycle(left)),
            Ok(order) => {
                let ghost g = graph_of(self.nodes@);
                let mut out: Vec<Candidate> = Vec::new();
                let mut i: usize = 0;
                while i < order.len()
                    invariant
                        self.wf(),
                        g == graph_of(self.nodes@),
                        topo_spec(g) == Ok::<Seq<Seq<u8>>, Seq<Seq<u8>>>(names_of(order@)),
                        i <= order@.len(),
                        out@.len() == i,
                        forall|j: int|
                            0 <= j < i ==> {
                                &&& utf8_of((#[trigger] out@[j]).module@) == names_of(order@)[j]
                                &&& exists|k: int|
                                    0 <= k < self@.files.len() && utf8_of(self@.modules[k].0) == names_of(
                                        order@,
                                    )[j] && self@.files[k] == out@[j].file@
                            },
                    decreases order@.len() - i,
                {
                    let module = order[i].clone();
                    proof {
                        assert(names_of(order@)[i as int] == utf8_of(module@));
                        assert(names_of(order@).contains(utf8_of(module@)));
                        lemma_emit_names(g, Seq::empty(), true, utf8_of(module@));
                    }
                    let k = self.file_of(module.as_str().as_bytes());
                    let file = match k {
                        Some(k) => self.files[k].clone(),
                        None => String::new(),
                    };
                    let ghost before = out@;
                    out.push(Candidate { file, module });
                    proof {
                        let kk = k->0;
                        assert(utf8_of(self@.modules[kk as int].0) == names_of(order@)[i as int]);
                        assert forall|j: int| 0 <= j < i + 1 implies {
                            &&& utf8_of((#[trigger] out@[j]).module@) == names_of(order@)[j]
                            &&& exists|k: int|
                                0 <= k < self@.files.len() && utf8_of(self@.modules[k].0) == names_of(
                                    order@,
                                )[j] && self@.files[k] == out@[j].file@
                        } by {
                            if j < i {
                                assert(out@[j] == before[j]);
                            } else {
                                assert(self@.files[kk as int] == out@[j].file@);
                            }
                        }
                    }
                    i = i + 1;
                }
                Ok(out)
            },
        }
    }
}

// ---------------------------------------------------------------------------
// The pack-only manifest
// ---------------------------------------------------------------------------

/// A char trimmed off a manifest line: space, tab or carriage return.
pub open spec fn is_blank(c: char) -> bool {
    c == ' ' || c == '\t' || c == '\r'
}

/// `l` without its leading blanks.
pub open spec fn trim_start(l: Seq<char>) -> Seq<char>
    decreases l.len(),
{
    if l.len() > 0 && is_blank(l[0]) {
        trim_start(l.drop_first())
    } else {
        l
    }
}

/// `l` without its trailing blanks.
pub open spec fn trim_end(l: Seq<char>) -> Seq<char>
    decreases l.len(),
{
    if l.len() > 0 && is_blank(l.last()) {
        trim_end(l.drop_last())
    } else {
        l
    }
}

/// The entry a manifest line gives: the line trimmed, none for a blank line
/// or a `#` comment.
pub open spec fn line_entry(line: Seq<char>) -> Seq<Seq<char>> {
    let t = trim_end(trim_start(line));
    if t.len() == 0 || t[0] == '#' {
        Seq::empty()
    } else {
        seq![t]
    }
}

/// The entries of manifest text `cs` from char `i` on, `cur` being the part
/// of the current line before `i`.
pub open spec fn manifest_from(cs: Seq<char>, i: int, cur: Seq<char>) -> Seq<Seq<char>>
    decreases cs.len() - i,
{
    if i < 0 || i >= cs.len() {
        line_entry(cur)
    } else if cs[i] == '\n' {
        line_entry(cur) + manifest_from(cs, i + 1, Seq::empty())
    } else {
        manifest_from(cs, i + 1, cur.push(cs[i]))
    }
}

/// The file names a `.packonly` manifest lists: one per line, each trimmed of
/// spaces, tabs and carriage returns, blank lines and `#` comments skipped.
pub open spec fn packonly_spec(text: Seq<char>) -> Seq<Seq<char>> {
    manifest_from(text, 0, Seq::empty())
}

/// The entry of manifest line `line` (see [`line_entry`]).
fn entry_of(line: &Vec<char>, out: &mut Vec<String>)
    ensures
        texts(final(out)@) == texts(old(out)@) + line_entry(line@),
{
    let mut t: Vec<char> = line.clone();
    assert(t@ =~= line@);
    while t.len() > 0 && (t[0] == ' ' || t[0] == '\t' || t[0] == '\r')
        invariant
            trim_start(t@) == trim_start(line@),
        decreases t@.len(),
    {
        let ghost before = t@;
        t.remove(0);
        assert(t@ =~= before.drop_first());
    }
    let ghost ts = t@;
    assert(trim_start(ts) == ts);
    while t.len() > 0 && (t[t.len() - 1] == ' ' || t[t.len() - 1] == '\t' || t[t.len() - 1] == '\r')
        invariant
            trim_end(t@) == trim_end(ts),
        decreases t@.len(),
    {
        let ghost before = t@;
        t.pop();
        assert(t@ =~= before.drop_last());
    }
    assert(trim_end(t@) == t@);
    if t.len() == 0 || t[0] == '#' {
        assert(texts(out@) =~= texts(out@) + line_entry(line@));
        return;
    }
    let mut name = String::new();
    let mut k: usize = 0;
    while k < t.len()
        invariant
            k <= t@.len(),
            name@ =~= t@.subrange(0, k as int),
        decreases t@.len() - k,
    {
        push_char(&mut name, t[k]);
        k = k + 1;
    }
    assert(name@ =~= t@);
    let ghost prev = out@;
    out.push(name);
    assert(texts(out@) =~= texts(prev) + line_entry(line@));
}

/// The file names the `.packonly` manifest `text` lists (see
/// [`packonly_spec`]).
pub fn parse_packonly(text: &str) -> (names: Vec<String>)
    ensures
        texts(names@) == packonly_spec(text@),
{
    let n = text.unicode_len();
    let mut out: Vec<String> = Vec::new();
    let mut cur: Vec<char> = Vec::new();
    let mut i: usize = 0;
    while i < n
        invariant
            n == text@.len(),
            i <= n,
            texts(out@) + manifest_from(text@, i as int, cur@) == packonly_spec(text@),
        decreases n - i,
    {
        let c = text.get_char(i);
        if c == '\n' {
            let ghost o = texts(out@);
            let ghost line = cur@;
            entry_of(&cur, &mut out);
            cur = Vec::new();
            assert(manifest_from(text@, i as int, line) == line_entry(line) + manifest_from(
                text@,
                i + 1,
                cur@,
            ));
            assert(texts(out@) + manifest_from(text@, i + 1, cur@) =~= o + manifest_from(text@, i as int, line));
        } else {
            cur.push(c);
        }
        i = i + 1;
    }
    let ghost o = texts(out@);
    entry_of(&cur, &mut out);
    assert(texts(out@) =~= o + manifest_from(text@, i as int, cur@));
    out
}

} // verus!
