//! Credential custody: the capability URL of each repository and the forge
//! owner credentials, as they were read from the capability directory. Values
//! leave the module only for an outgoing git or forge request.

use vstd::prelude::*;
use vstd::string::*;
use vstd::utf8::*;

use crate::lines::texts;
use crate::order::{ascending, insert_ascending, lemma_ascending_unique};
use crate::search::{ends_with, strip_suffix};
use crate::text::{same_text, trim, trimmed};

verus! {

/// The forge owner credentials of the workspace's organisation.
#[derive(Debug, Clone, PartialEq, Eq)]
pub struct ForgeOwnerCreds {
    pub owner_user: String,
    pub owner_password: String,
    pub admin_token: String,
}

/// The texts of [`ForgeOwnerCreds`].
pub ghost struct OwnerView {
    pub owner_user: Seq<char>,
    pub owner_password: Seq<char>,
    pub admin_token: Seq<char>,
}

impl View for ForgeOwnerCreds {
    type V = OwnerView;

    open spec fn view(&self) -> OwnerView {
        OwnerView {
            owner_user: self.owner_user@,
            owner_password: self.owner_password@,
            admin_token: self.admin_token@,
        }
    }
}

/// The owner credentials that an option holds.
pub open spec fn opt_owner(o: Option<ForgeOwnerCreds>) -> Option<OwnerView> {
    match o {
        Some(c) => Some(c@),
        None => None,
    }
}

/// A file of the capability directory, and its text if it could be read.
#[derive(Debug, Clone)]
pub struct CapFile {
    pub name: String,
    pub contents: Option<String>,
}

struct GitCap {
    repo: String,
    url: String,
}

/// The held credentials.
pub struct Creds {
    git_caps: Vec<GitCap>,
    forge_admin_token: Option<String>,
    forge_owner: Option<ForgeOwnerCreds>,
}

/// What [`Creds`] holds.
#[verifier::ext_equal]
pub ghost struct CredsView {
    /// The capability URL of each repository.
    pub caps: Map<Seq<char>, Seq<char>>,
    pub admin_token: Option<Seq<char>>,
    pub owner: Option<OwnerView>,
}

impl CredsView {
    /// Nothing is held.
    pub open spec fn nothing() -> CredsView {
        CredsView { caps: Map::empty(), admin_token: None, owner: None }
    }

    /// The names under which the held credentials are listed: one for each
    /// repository with a capability, and one for the forge.
    pub open spec fn names(self) -> Set<Seq<char>> {
        Set::new(
            |n: Seq<char>|
                {
                    ||| exists|r: Seq<char>| self.caps.contains_key(r) && n == "git:"@ + r
                    ||| self.admin_token is Some && n == "forge"@
                },
        )
    }
}

spec fn distinct(v: Seq<GitCap>) -> bool {
    forall|i: int, j: int|
        0 <= i < j < v.len() ==> (#[trigger] v[i]).repo@ != (#[trigger] v[j]).repo@
}

spec fn caps_map(v: Seq<GitCap>) -> Map<Seq<char>, Seq<char>>
    decreases v.len(),
{
    if v.len() == 0 {
        Map::empty()
    } else {
        caps_map(v.drop_last()).insert(v.last().repo@, v.last().url@)
    }
}

proof fn lemma_caps_map(v: Seq<GitCap>)
    requires
        distinct(v),
    ensures
        forall|i: int|
            0 <= i < v.len() ==> caps_map(v).contains_key((#[trigger] v[i]).repo@) && caps_map(
                v,
            )[v[i].repo@] == v[i].url@,
        forall|r: Seq<char>| #[trigger]
            caps_map(v).contains_key(r) ==> exists|i: int|
                0 <= i < v.len() && (#[trigger] v[i]).repo@ == r,
    decreases v.len(),
{
    if v.len() > 0 {
        let t = v.drop_last();
        assert(distinct(t)) by {
            assert forall|i: int, j: int| 0 <= i < j < t.len() implies (#[trigger] t[i]).repo@ != (
            #[trigger] t[j]).repo@ by {
                assert(t[i] == v[i] && t[j] == v[j]);
            }
        }
        lemma_caps_map(t);
        assert forall|i: int| 0 <= i < v.len() implies caps_map(v).contains_key(
            (#[trigger] v[i]).repo@,
        ) && caps_map(v)[v[i].repo@] == v[i].url@ by {
            if i < t.len() {
                assert(t[i] == v[i]);
            }
        }
        assert forall|r: Seq<char>| #[trigger] caps_map(v).contains_key(r) implies exists|i: int|
            0 <= i < v.len() && (#[trigger] v[i]).repo@ == r by {
            if r != v.last().repo@ {
                assert(caps_map(t).contains_key(r));
                let i = choose|i: int| 0 <= i < t.len() && (#[trigger] t[i]).repo@ == r;
                assert(v[i] == t[i]);
            } else {
                assert(v[v.len() - 1].repo@ == r);
            }
        }
    }
}

/// The capability that a file of the capability directory gives, as repository
/// and URL: the file `<repo>.url`, if it holds more than white space.
pub open spec fn cap_of(f: CapFile) -> Option<(Seq<char>, Seq<char>)> {
    if ends_with(f.name@, ".url"@) && f.contents is Some && trimmed(f.contents->0@).len() > 0 {
        Some((f.name@.take(f.name@.len() - 4), trimmed(f.contents->0@)))
    } else {
        None
    }
}

/// The capabilities that the files give. Of two for one repository the later
/// one counts.
pub open spec fn caps_of(files: Seq<CapFile>) -> Map<Seq<char>, Seq<char>>
    decreases files.len(),
{
    if files.len() == 0 {
        Map::empty()
    } else {
        match cap_of(files.last()) {
            Some((repo, url)) => caps_of(files.drop_last()).insert(repo, url),
            None => caps_of(files.drop_last()),
        }
    }
}

/// The trimmed text of a file, if it was there and holds more than white space.
pub open spec fn filled(contents: Option<Seq<char>>) -> Option<Seq<char>> {
    match contents {
        Some(s) => if trimmed(s).len() > 0 {
            Some(trimmed(s))
        } else {
            None
        },
        None => None,
    }
}

/// The text that an optional slice holds.
pub open spec fn opt_slice(s: Option<&str>) -> Option<Seq<char>> {
    match s {
        Some(t) => Some(t@),
        None => None,
    }
}

/// What the capability directory and the forge-admin file give, where `owner`
/// is what the trimmed text of that file parses to: owner credentials, or a
/// bare admin token if it is none.
pub open spec fn loaded(
    files: Seq<CapFile>,
    forge_admin: Option<Seq<char>>,
    owner: Option<OwnerView>,
) -> CredsView {
    CredsView {
        caps: caps_of(files),
        admin_token: match (filled(forge_admin), owner) {
            (None, _) => None,
            (Some(_), Some(o)) => Some(o.admin_token),
            (Some(s), None) => Some(s),
        },
        owner: if filled(forge_admin) is Some {
            owner
        } else {
            None
        },
    }
}

/// The trimmed text of a file, if it was there and holds more than white space.
pub fn filled_text(contents: Option<&str>) -> (r: Option<String>)
    ensures
        crate::contract::opt_text(r) == filled(opt_slice(contents)),
{
    match contents {
        Some(s) => {
            let t = trim(s);
            if t.is_empty() {
                None
            } else {
                Some(t.to_owned())
            }
        },
        None => None,
    }
}

fn put_cap(v: &mut Vec<GitCap>, repo: &str, url: &str)
    requires
        distinct(old(v)@),
    ensures
        distinct(final(v)@),
        caps_map(final(v)@) == caps_map(old(v)@).insert(repo@, url@),
{
    let ghost before = v@;
    let cap = GitCap { repo: repo.to_owned(), url: url.to_owned() };
    let mut i: usize = 0;
    while i < v.len()
        invariant
            i <= v.len(),
            v@ == before,
            before == old(v)@,
            distinct(before),
            cap.repo@ == repo@,
            cap.url@ == url@,
            forall|j: int| 0 <= j < i ==> (#[trigger] v@[j]).repo@ != repo@,
        decreases v.len() - i,
    {
        if same_text(v[i].repo.as_str(), repo) {
            v.set(i, cap);
            proof {
                let after = v@;
                assert forall|p: int, q: int| 0 <= p < q < after.len() implies (
                #[trigger] after[p]).repo@ != (#[trigger] after[q]).repo@ by {
                    assert(after[p].repo@ == before[p].repo@);
                    assert(after[q].repo@ == before[q].repo@);
                }
                lemma_caps_map(before);
                lemma_caps_map(after);
                let m = caps_map(before).insert(repo@, url@);
                assert forall|r: Seq<char>| #[trigger] caps_map(after).dom().contains(r)
                    == m.dom().contains(r) && (m.dom().contains(r) ==> caps_map(after)[r] == m[r])
                    by {
                    if caps_map(before).contains_key(r) {
                        let k = choose|k: int|
                            0 <= k < before.len() && (#[trigger] before[k]).repo@ == r;
                        assert(after[k].repo@ == r);
                    }
                    if caps_map(after).contains_key(r) {
                        let k = choose|k: int|
                            0 <= k < after.len() && (#[trigger] after[k]).repo@ == r;
                        assert(before[k].repo@ == r);
                    }
                    assert(after[i as int].repo@ == repo@);
                }
                assert(caps_map(after) =~= m);
            }
            return;
        }
        i += 1;
    }
    v.push(cap);
    proof {
        let after = v@;
        assert forall|p: int, q: int| 0 <= p < q < after.len() implies (#[trigger] after[p]).repo@
            != (#[trigger] after[q]).repo@ by {
            assert(after[p] == before[p]);
            if q < before.len() {
                assert(after[q] == before[q]);
            }
        }
        assert(after.drop_last() == before);
    }
}

impl Creds {
    #[verifier::type_invariant]
    spec fn inv(self) -> bool {
        distinct(self.git_caps@)
    }
}

impl View for Creds {
    type V = CredsView;

    closed spec fn view(&self) -> CredsView {
        CredsView {
            caps: caps_map(self.git_caps@),
            admin_token: crate::contract::opt_text(self.forge_admin_token),
            owner: opt_owner(self.forge_owner),
        }
    }
}

impl Clone for Creds {
    fn clone(&self) -> (r: Self)
        ensures
            r@ == self@,
    {
        proof {
            use_type_invariant(self);
        }
        let mut git_caps: Vec<GitCap> = Vec::new();
        let mut i: usize = 0;
        let ghost caps = self.git_caps@;
        while i < self.git_caps.len()
            invariant
                i <= self.git_caps.len(),
                caps == self.git_caps@,
                distinct(caps),
                distinct(git_caps@),
                caps_map(git_caps@) == caps_map(caps.take(i as int)),
            decreases self.git_caps.len() - i,
        {
            assert(caps.take(i + 1).drop_last() == caps.take(i as int));
            put_cap(&mut git_caps, self.git_caps[i].repo.as_str(), self.git_caps[i].url.as_str());
            i += 1;
        }
        assert(caps.take(i as int) == caps);
        let forge_admin_token = match &self.forge_admin_token {
            Some(t) => Some(t.clone()),
            None => None,
        };
        let forge_owner = match &self.forge_owner {
            Some(o) => Some(
                ForgeOwnerCreds {
                    owner_user: o.owner_user.clone(),
                    owner_password: o.owner_password.clone(),
                    admin_token: o.admin_token.clone(),
                },
            ),
            None => None,
        };
        Creds { git_caps, forge_admin_token, forge_owner }
    }
}

impl Default for Creds {
    fn default() -> (r: Self)
        ensures
            r@ == CredsView::nothing(),
    {
        Creds { git_caps: Vec::new(), forge_admin_token: None, forge_owner: None }
    }
}

impl Creds {
    /// The credentials that the files of the capability directory and the text
    /// of the forge-admin file give. `owner` is what the trimmed text of the
    /// latter parses to.
    pub fn load(
        files: &Vec<CapFile>,
        forge_admin: Option<&str>,
        owner: Option<ForgeOwnerCreds>,
    ) -> (r: Self)
        ensures
            r@ == loaded(files@, opt_slice(forge_admin), opt_owner(owner)),
    {
        let mut git_caps: Vec<GitCap> = Vec::new();
        let mut i: usize = 0;
        while i < files.len()
            invariant
                i <= files.len(),
                distinct(git_caps@),
                caps_map(git_caps@) == caps_of(files@.take(i as int)),
            decreases files.len() - i,
        {
            assert(files@.take(i + 1).drop_last() == files@.take(i as int));
            proof {
                reveal_strlit(".url");
            }
            if let Some(repo) = strip_suffix(files[i].name.as_str(), ".url") {
                if let Some(text) = &files[i].contents {
                    let url = trim(text.as_str());
                    if !url.is_empty() {
                        put_cap(&mut git_caps, repo, url);
                    }
                }
            }
            i += 1;
        }
        assert(files@.take(i as int) == files@);
        match filled_text(forge_admin) {
            None => Creds { git_caps, forge_admin_token: None, forge_owner: None },
            Some(s) => match owner {
                Some(o) => Creds {
                    git_caps,
                    forge_admin_token: Some(o.admin_token.clone()),
                    forge_owner: Some(o),
                },
                None => Creds { git_caps, forge_admin_token: Some(s), forge_owner: None },
            },
        }
    }

    /// The capability URL of `repo`.
    pub fn git_cap_url(&self, repo: &str) -> (r: Option<&str>)
        ensures
            match r {
                Some(u) => self@.caps.contains_key(repo@) && u@ == self@.caps[repo@],
                None => !self@.caps.contains_key(repo@),
            },
    {
        proof {
            use_type_invariant(self);
            lemma_caps_map(self.git_caps@);
        }
        let mut i: usize = 0;
        while i < self.git_caps.len()
            invariant
                i <= self.git_caps.len(),
                distinct(self.git_caps@),
                forall|j: int| 0 <= j < i ==> (#[trigger] self.git_caps@[j]).repo@ != repo@,
            decreases self.git_caps.len() - i,
        {
            if same_text(self.git_caps[i].repo.as_str(), repo) {
                proof {
                    lemma_caps_map(self.git_caps@);
                }
                return Some(self.git_caps[i].url.as_str());
            }
            i += 1;
        }
        None
    }

    /// The forge admin token.
    pub fn forge_admin_token(&self) -> (r: Option<&str>)
        ensures
            opt_slice(r) == self@.admin_token,
    {
        match &self.forge_admin_token {
            Some(s) => Some(s.as_str()),
            None => None,
        }
    }

    /// The forge owner credentials.
    pub fn forge_owner(&self) -> (r: Option<&ForgeOwnerCreds>)
        ensures
            match r {
                Some(o) => self@.owner == Some(o@),
                None => self@.owner is None,
            },
    {
        self.forge_owner.as_ref()
    }

    /// The names of the held credentials, in ascending order and never a value.
    pub fn cap_names(&self) -> (r: Vec<String>)
        ensures
            ascending(texts(r@)),
            texts(r@).to_set() == self@.names(),
    {
        proof {
            use_type_invariant(self);
            lemma_caps_map(self.git_caps@);
            reveal_strlit("git:");
            reveal_strlit("forge");
        }
        let mut names: Vec<String> = Vec::new();
        let mut i: usize = 0;
        assert(texts(names@) == Seq::<Seq<char>>::empty());
        let ghost caps = self.git_caps@;
        while i < self.git_caps.len()
            invariant
                i <= self.git_caps.len(),
                caps == self.git_caps@,
                distinct(caps),
                ascending(texts(names@)),
                forall|n: Seq<char>| #[trigger]
                    texts(names@).to_set().contains(n) <==> exists|j: int|
                        0 <= j < i && n == "git:"@ + (#[trigger] caps[j]).repo@,
            decreases self.git_caps.len() - i,
        {
            let mut name = "git:".to_owned();
            name.append(self.git_caps[i].repo.as_str());
            let ghost x = name@;
            let ghost before = texts(names@).to_set();
            proof {
                if texts(names@).contains(x) {
                    assert(before.contains(x));
                    let j = choose|j: int| 0 <= j < i && x == "git:"@ + (#[trigger] caps[j]).repo@;
                    assert(x.skip("git:"@.len() as int) == caps[j].repo@);
                    assert(x.skip("git:"@.len() as int) == caps[i as int].repo@);
                }
            }
            insert_ascending(&mut names, name);
            proof {
                assert forall|n: Seq<char>| #[trigger]
                    texts(names@).to_set().contains(n) <==> exists|j: int|
                        0 <= j < i + 1 && n == "git:"@ + (#[trigger] caps[j]).repo@ by {
                    if before.contains(n) {
                        let j = choose|j: int|
                            0 <= j < i && n == "git:"@ + (#[trigger] caps[j]).repo@;
                        assert(0 <= j < i + 1);
                    }
                    assert(x == "git:"@ + caps[i as int].repo@);
                }
            }
            i += 1;
        }
        let ghost gits = texts(names@).to_set();
        if self.forge_admin_token.is_some() {
            proof {
                if texts(names@).contains("forge"@) {
                    assert(gits.contains("forge"@));
                    let j = choose|j: int|
                        0 <= j < i && "forge"@ == "git:"@ + (#[trigger] caps[j]).repo@;
                    assert("forge"@[0] == ("git:"@ + caps[j].repo@)[0]);
                }
            }
            insert_ascending(&mut names, "forge".to_owned());
        }
        proof {
            assert forall|n: Seq<char>| gits.contains(n) <==> exists|r: Seq<char>|
                self@.caps.contains_key(r) && n == "git:"@ + r by {
                if gits.contains(n) {
                    let j = choose|j: int| 0 <= j < i && n == "git:"@ + (#[trigger] caps[j]).repo@;
                    assert(self@.caps.contains_key(caps[j].repo@));
                }
                if exists|r: Seq<char>| self@.caps.contains_key(r) && n == "git:"@ + r {
                    let r = choose|r: Seq<char>| self@.caps.contains_key(r) && n == "git:"@ + r;
                    let j = choose|j: int| 0 <= j < caps.len() && (#[trigger] caps[j]).repo@ == r;
                    assert(n == "git:"@ + caps[j].repo@);
                }
            }
            assert(texts(names@).to_set() =~= self@.names());
        }
        names
    }

    /// Every text that is held as a secret, each as often as it is held.
    pub closed spec fn secrets(self) -> Seq<Seq<char>> {
        urls(self.git_caps@) + (match self.forge_admin_token {
            Some(t) => seq![t@],
            None => seq![],
        }) + (match self.forge_owner {
            Some(o) => seq![o.owner_user@, o.owner_password@, o.admin_token@],
            None => seq![],
        })
    }

    /// Drops every credential, after overwriting its text, and hands back the
    /// overwritten buffers.
    pub fn scrub(&mut self) -> (r: Vec<Vec<u8>>)
        ensures
            final(self)@ == CredsView::nothing(),
            final(self).secrets().len() == 0,
            covers(old(self).secrets(), old(self)@),
            overwritten(old(self).secrets(), r@),
    {
        proof {
            use_type_invariant(&*self);
            lemma_covers(*self);
        }
        let ghost before = *self;
        let ghost all = self.secrets();
        let mut caps: Vec<GitCap> = Vec::new();
        std::mem::swap(&mut caps, &mut self.git_caps);
        let ghost held = caps@;
        let n: usize = caps.len();
        let mut out: Vec<Vec<u8>> = Vec::new();
        while caps.len() > 0
            invariant
                held.len() == n,
                caps@ == held.take(caps@.len() as int),
                out@.len() + caps@.len() == n,
                forall|i: int|
                    0 <= i < out@.len() ==> (#[trigger] out@[i])@ == zeros(urls(held)[i]),
            decreases caps.len(),
        {
            if let Some(cap) = caps.pop() {
                out.push(wiped(cap.url));
            }
        }
        let mut admin_token: Option<String> = None;
        std::mem::swap(&mut admin_token, &mut self.forge_admin_token);
        if let Some(token) = admin_token {
            out.push(wiped(token));
        }
        let mut forge_owner: Option<ForgeOwnerCreds> = None;
        std::mem::swap(&mut forge_owner, &mut self.forge_owner);
        if let Some(owner) = forge_owner {
            out.push(wiped(owner.owner_user));
            out.push(wiped(owner.owner_password));
            out.push(wiped(owner.admin_token));
        }
        assert(all == before.secrets());
        assert(out@.len() == all.len());
        assert forall|i: int| 0 <= i < out@.len() implies (#[trigger] out@[i])@ == zeros(all[i]) by {
            if i < n {
                assert(all[i] == urls(held)[i]);
            }
        }
        out
    }
}

spec fn urls(v: Seq<GitCap>) -> Seq<Seq<char>> {
    Seq::new(v.len(), |i: int| v[v.len() - 1 - i].url@)
}

/// The bytes of `text`, each overwritten with zero.
pub open spec fn zeros(text: Seq<char>) -> Seq<u8> {
    Seq::new(encode_utf8(text).len(), |i: int| 0u8)
}

/// The buffers are those of the texts, one for each, every byte overwritten with
/// zero.
pub open spec fn overwritten(texts: Seq<Seq<char>>, buffers: Seq<Vec<u8>>) -> bool {
    &&& buffers.len() == texts.len()
    &&& forall|i: int| 0 <= i < buffers.len() ==> (#[trigger] buffers[i])@ == zeros(texts[i])
}

/// Every secret of `held` is among `secrets`.
pub open spec fn covers(secrets: Seq<Seq<char>>, held: CredsView) -> bool {
    &&& forall|repo: Seq<char>| #[trigger]
        held.caps.contains_key(repo) ==> secrets.contains(held.caps[repo])
    &&& held.admin_token matches Some(token) ==> secrets.contains(token)
    &&& held.owner matches Some(owner) ==> {
        &&& secrets.contains(owner.owner_user)
        &&& secrets.contains(owner.owner_password)
        &&& secrets.contains(owner.admin_token)
    }
}

proof fn lemma_covers(creds: Creds)
    requires
        distinct(creds.git_caps@),
    ensures
        covers(creds.secrets(), creds@),
{
    let v = creds.git_caps@;
    let all = creds.secrets();
    let n = v.len() as int;
    lemma_caps_map(v);
    assert forall|repo: Seq<char>| #[trigger] creds@.caps.contains_key(repo) implies all.contains(
        creds@.caps[repo],
    ) by {
        let i = choose|i: int| 0 <= i < v.len() && (#[trigger] v[i]).repo@ == repo;
        assert(all[n - 1 - i] == v[i].url@);
    }
    let k = if creds.forge_admin_token is Some {
        n + 1
    } else {
        n
    };
    if creds.forge_admin_token is Some {
        assert(all[n] == creds.forge_admin_token->0@);
    }
    if creds.forge_owner is Some {
        assert(all[k] == creds.forge_owner->0.owner_user@);
        assert(all[k + 1] == creds.forge_owner->0.owner_password@);
        assert(all[k + 2] == creds.forge_owner->0.admin_token@);
    }
}

/// `std::string::String::into_bytes`: the UTF-8 bytes of the string, in the
/// buffer that held it.
pub assume_specification[ String::into_bytes ](s: String) -> (b: Vec<u8>)
    ensures
        b@ == encode_utf8(s@),
;

/// The buffer of `s`, every byte overwritten with zero.
pub fn wiped(s: String) -> (r: Vec<u8>)
    ensures
        r@ == zeros(s@),
{
    let ghost t = s@;
    let mut b = s.into_bytes();
    let mut i: usize = 0;
    while i < b.len()
        invariant
            i <= b.len(),
            b@.len() == encode_utf8(t).len(),
            forall|j: int| 0 <= j < i ==> b@[j] == 0,
        decreases b.len() - i,
    {
        b.set(i, 0);
        i += 1;
    }
    b
}

/// Whether `a` and `b` are the same bytes. Every byte of two inputs of one
/// length is looked at, wherever they differ.
pub fn constant_time_eq(a: &[u8], b: &[u8]) -> (r: bool)
    ensures
        r == (a@ == b@),
{
    if a.len() != b.len() {
        return false;
    }
    let mut diff: u8 = 0;
    let mut i: usize = 0;
    while i < a.len()
        invariant
            i <= a.len() == b.len(),
            diff == 0 <==> forall|j: int| 0 <= j < i ==> a@[j] == b@[j],
        decreases a.len() - i,
    {
        let x: u8 = a[i];
        let y: u8 = b[i];
        assert((diff | (x ^ y)) == 0 <==> diff == 0 && x == y) by (bit_vector);
        diff = diff | (x ^ y);
        i += 1;
    }
    assert(diff == 0 ==> a@ =~= b@);
    diff == 0
}

/// The listed names tell nothing of any value: credentials for the same
/// repositories are listed alike, whatever the URLs and tokens are.
pub proof fn law_names_tell_no_value(
    a: CredsView,
    b: CredsView,
    a_names: Seq<Seq<char>>,
    b_names: Seq<Seq<char>>,
)
    requires
        a.caps.dom() == b.caps.dom(),
        a.admin_token is Some == b.admin_token is Some,
        ascending(a_names) && a_names.to_set() == a.names(),
        ascending(b_names) && b_names.to_set() == b.names(),
    ensures
        a_names == b_names,
{
    assert forall|n: Seq<char>| a.names().contains(n) == b.names().contains(n) by {
        assert(forall|r: Seq<char>| a.caps.contains_key(r) == b.caps.contains_key(r)) by {
            assert(forall|r: Seq<char>| a.caps.contains_key(r) == a.caps.dom().contains(r));
            assert(forall|r: Seq<char>| b.caps.contains_key(r) == b.caps.dom().contains(r));
        }
    }
    assert(a.names() =~= b.names());
    lemma_ascending_unique(a_names, b_names);
}

/// Once nothing is held, no name is listed.
pub proof fn law_nothing_held_lists_nothing(names: Seq<Seq<char>>)
    requires
        ascending(names) && names.to_set() == CredsView::nothing().names(),
    ensures
        names.len() == 0,
{
    if names.len() > 0 {
        assert(names.to_set().contains(names[0]));
    }
}

} // verus!
