//! Links to playlists of the music catalog, in its store form and in its
//! embeddable form.
use vstd::prelude::*;
use crate::error::ValidationError;
use crate::text::{
    chars_of, first_slash, lemma_first_slash_ends, lemma_slash_split_unique, lemma_occurs_in_suffix,
    lemma_split_at, occurs_at, occurs_at_exec,
};

verus! {

/// Scheme and host of the store form; a two-character locale follows.
pub const STORE_HOST: &'static str = "https://itunes.apple.com/";

/// The locale that written store links carry.
pub const LOCALE: &'static str = "de";

/// Scheme, host and version segment of the embeddable form.
pub const EMBED_HOST: &'static str = "https://tools.applemusic.com/embed/v1";

/// Path segment before the display name or the id.
pub const PLAYLIST: &'static str = "/playlist/";

/// Prefix of every playlist id.
pub const ID_PREFIX: &'static str = "pl.u-";

/// Separator between the display name and the id.
pub const SLASH: &'static str = "/";

/// A playlist id: the id prefix and at least one more character.
pub open spec fn valid_id(id: Seq<char>) -> bool {
    occurs_at(id, 0, ID_PREFIX@) && id.len() > ID_PREFIX@.len()
}

/// A display name: any characters but a slash, possibly none.
pub open spec fn valid_name(name: Seq<char>) -> bool {
    !name.contains('/')
}

/// `path` is the display name `name`, a slash, and the id `id`.
pub open spec fn named_path(path: Seq<char>, name: Seq<char>, id: Seq<char>) -> bool {
    &&& valid_name(name)
    &&& valid_id(id)
    &&& path == name + (SLASH@ + id)
}

/// `path` carries a display name.
pub open spec fn has_named_path(path: Seq<char>) -> bool {
    exists|name: Seq<char>, id: Seq<char>| named_path(path, name, id)
}

/// What the path after the playlist segment denotes: a display name and an
/// id where it carries a display name, else an empty name and the path as
/// the id.
pub open spec fn path_denotes(path: Seq<char>, name: Seq<char>, id: Seq<char>) -> bool {
    if has_named_path(path) {
        named_path(path, name, id)
    } else {
        name.len() == 0 && id == path && valid_id(id)
    }
}

/// Where a link starts at position `i` of `t`, the position of its path:
/// after the store host, a two-character locale and the playlist segment,
/// or after the embed host and the playlist segment.
pub open spec fn path_start(t: Seq<char>, i: int) -> Option<int> {
    let store_locale_end = i + STORE_HOST@.len() + 2;
    let embed_end = i + EMBED_HOST@.len();
    if occurs_at(t, i, STORE_HOST@) && occurs_at(t, store_locale_end, PLAYLIST@) {
        Some(store_locale_end + PLAYLIST@.len())
    } else if occurs_at(t, i, EMBED_HOST@) && occurs_at(t, embed_end, PLAYLIST@) {
        Some(embed_end + PLAYLIST@.len())
    } else {
        None
    }
}

/// From position `i` to its end, `t` is a link, in either form, to the
/// playlist `id` with display name `name`.
pub open spec fn link_at(t: Seq<char>, i: int, name: Seq<char>, id: Seq<char>) -> bool {
    &&& 0 <= i <= t.len()
    &&& path_start(t, i) is Some
    &&& path_denotes(t.subrange(path_start(t, i)->0, t.len() as int), name, id)
}

/// A link starts at position `i` of `t`.
pub open spec fn link_starts_at(t: Seq<char>, i: int) -> bool {
    exists|name: Seq<char>, id: Seq<char>| link_at(t, i, name, id)
}

/// A link starts somewhere in `t`.
pub open spec fn has_link(t: Seq<char>) -> bool {
    exists|i: int| link_starts_at(t, i)
}

/// The first link in `t` is to the playlist `id` with display name `name`.
pub open spec fn first_link(t: Seq<char>, name: Seq<char>, id: Seq<char>) -> bool {
    exists|i: int|
        link_at(t, i, name, id) && forall|j: int| 0 <= j < i ==> !link_starts_at(t, j)
}

/// The store link to the playlist `id`, with its display name where it has one.
pub open spec fn store_link(name: Seq<char>, id: Seq<char>) -> Seq<char> {
    if name.len() == 0 {
        STORE_HOST@ + (LOCALE@ + (PLAYLIST@ + id))
    } else {
        STORE_HOST@ + (LOCALE@ + (PLAYLIST@ + (name + (SLASH@ + id))))
    }
}

/// The embeddable link to the playlist `id`.
pub open spec fn embed_link(id: Seq<char>) -> Seq<char> {
    EMBED_HOST@ + (PLAYLIST@ + id)
}

/// The lengths of the fixed segments.
proof fn reveal_literals()
    ensures
        STORE_HOST@.len() == 25,
        LOCALE@.len() == 2,
        EMBED_HOST@.len() == 37,
        PLAYLIST@.len() == 10,
        ID_PREFIX@.len() == 5,
        SLASH@.len() == 1 && SLASH@[0] == '/',
        STORE_HOST@[8] == 'i' && EMBED_HOST@[8] == 't',
{
    reveal_strlit("https://itunes.apple.com/");
    reveal_strlit("de");
    reveal_strlit("https://tools.applemusic.com/embed/v1");
    reveal_strlit("/playlist/");
    reveal_strlit("pl.u-");
    reveal_strlit("/");
}

/// A path splits in at most one way into a display name and an id.
proof fn lemma_named_path_unique(path: Seq<char>, name1: Seq<char>, id1: Seq<char>, name2: Seq<char>, id2: Seq<char>)
    requires
        named_path(path, name1, id1),
        named_path(path, name2, id2),
    ensures
        name1 == name2,
        id1 == id2,
{
    reveal_literals();
    lemma_slash_split_unique(path, name1, SLASH@ + id1, name2, SLASH@ + id2);
    assert(id1 =~= (SLASH@ + id1).subrange(1, (SLASH@ + id1).len() as int));
    assert(id2 =~= (SLASH@ + id2).subrange(1, (SLASH@ + id2).len() as int));
}

/// At most one link starts at a position.
proof fn lemma_link_unique(t: Seq<char>, i: int, name1: Seq<char>, id1: Seq<char>, name2: Seq<char>, id2: Seq<char>)
    requires
        link_at(t, i, name1, id1),
        link_at(t, i, name2, id2),
    ensures
        name1 == name2,
        id1 == id2,
{
    let path = t.subrange(path_start(t, i)->0, t.len() as int);
    if has_named_path(path) {
        lemma_named_path_unique(path, name1, id1, name2, id2);
    }
}

/// Where a link starts at position `i` of `t`, the position of its path.
fn path_start_exec(t: &Vec<char>, i: usize) -> (r: Option<usize>)
    requires
        i <= t@.len(),
    ensures
        match r {
            Some(p) => path_start(t@, i as int) == Some(p as int),
            None => path_start(t@, i as int) is None,
        },
{
    proof {
        reveal_literals();
    }
    let store_host = chars_of(STORE_HOST);
    let embed_host = chars_of(EMBED_HOST);
    let playlist = chars_of(PLAYLIST);
    let n = t.len();
    if occurs_at_exec(t, i, &store_host) && store_host.len() + 2 <= n - i {
        let locale_end = i + store_host.len() + 2;
        if occurs_at_exec(t, locale_end, &playlist) {
            return Some(locale_end + playlist.len());
        }
    }
    if occurs_at_exec(t, i, &embed_host) {
        let host_end = i + embed_host.len();
        if occurs_at_exec(t, host_end, &playlist) {
            return Some(host_end + playlist.len());
        }
    }
    None
}

/// What the path `t[p..]` denotes, if anything: the display name `t[a..b]`
/// and the id `t[c..]`.
fn path_exec(t: &Vec<char>, p: usize) -> (r: Option<(usize, usize, usize)>)
    requires
        p <= t@.len(),
    ensures
        match r {
            Some((a, b, c)) => {
                &&& a <= b <= c <= t@.len()
                &&& path_denotes(
                    t@.subrange(p as int, t@.len() as int),
                    t@.subrange(a as int, b as int),
                    t@.subrange(c as int, t@.len() as int),
                )
            },
            None => forall|name: Seq<char>, id: Seq<char>|
                !path_denotes(t@.subrange(p as int, t@.len() as int), name, id),
        },
{
    proof {
        reveal_literals();
    }
    let prefix = chars_of(ID_PREFIX);
    let n = t.len();
    let ghost path = t@.subrange(p as int, n as int);
    let b = first_slash(t, p);
    let named = b < n && occurs_at_exec(t, b + 1, &prefix) && prefix.len() < n - (b + 1);
    proof {
        // A display name ends at the first slash, so the path carries one
        // exactly when an id follows that slash.
        if has_named_path(path) {
            let (nm, d) = choose|nm: Seq<char>, d: Seq<char>| named_path(path, nm, d);
            lemma_first_slash_ends(t@, p as int, b as int, nm, SLASH@ + d);
            lemma_split_at(t@, p as int, nm, SLASH@ + d);
            lemma_split_at(t@, b as int, SLASH@, d);
            lemma_occurs_in_suffix(t@, b + 1, 0, ID_PREFIX@);
        }
        if named {
            let nm = t@.subrange(p as int, b as int);
            let d = t@.subrange(b + 1, n as int);
            assert forall|m: int| 0 <= m < nm.len() implies nm[m] != '/' by {
                assert(nm[m] == t@[p + m]);
            }
            lemma_occurs_in_suffix(t@, b + 1, 0, ID_PREFIX@);
            assert(t@.subrange(b as int, b + 1) =~= SLASH@);
            lemma_split_at(t@, b as int, SLASH@, d);
            lemma_split_at(t@, p as int, nm, SLASH@ + d);
            assert(named_path(path, nm, d));
        }
    }
    if named {
        return Some((p, b, b + 1));
    }
    let plain = occurs_at_exec(t, p, &prefix) && prefix.len() < n - p;
    proof {
        lemma_occurs_in_suffix(t@, p as int, 0, ID_PREFIX@);
        assert(t@.subrange(p as int, p as int).len() == 0);
    }
    if plain {
        return Some((p, p, p));
    }
    None
}

/// Finds the link that starts at position `i` of `t`, if any: the display
/// name is `t[a..b]` and the id is `t[c..]`.
fn link_at_exec(t: &Vec<char>, i: usize) -> (r: Option<(usize, usize, usize)>)
    requires
        i <= t@.len(),
    ensures
        match r {
            Some((a, b, c)) => {
                &&& a <= b <= c <= t@.len()
                &&& link_at(t@, i as int, t@.subrange(a as int, b as int), t@.subrange(c as int, t@.len() as int))
            },
            None => !link_starts_at(t@, i as int),
        },
{
    match path_start_exec(t, i) {
        Some(p) => {
            proof {
                reveal_literals();
            }
            path_exec(t, p)
        },
        None => None,
    }
}

/// The first link in a text is determined by the text.
pub proof fn lemma_first_link_unique(t: Seq<char>, name1: Seq<char>, id1: Seq<char>, name2: Seq<char>, id2: Seq<char>)
    requires
        first_link(t, name1, id1),
        first_link(t, name2, id2),
    ensures
        name1 == name2,
        id1 == id2,
{
    let i1 = choose|i: int| link_at(t, i, name1, id1) && forall|j: int| 0 <= j < i ==> !link_starts_at(t, j);
    let i2 = choose|i: int| link_at(t, i, name2, id2) && forall|j: int| 0 <= j < i ==> !link_starts_at(t, j);
    if i1 < i2 {
        assert(link_starts_at(t, i1));
    } else if i2 < i1 {
        assert(link_starts_at(t, i2));
    } else {
        lemma_link_unique(t, i1, name1, id1, name2, id2);
    }
}

/// A link to a playlist of the catalog: its display name, possibly empty,
/// and its id.
#[derive(Debug, Clone)]
pub struct AmusicUrl {
    link_name: String,
    id: String,
}

impl AmusicUrl {
    /// The display name; empty where the link carried none.
    pub closed spec fn name_view(&self) -> Seq<char> {
        self.link_name@
    }

    /// The playlist id.
    pub closed spec fn id_view(&self) -> Seq<char> {
        self.id@
    }

    /// A display name without a slash, and an id with the id prefix.
    pub open spec fn wf(&self) -> bool {
        valid_name(self.name_view()) && valid_id(self.id_view())
    }

    /// Reads the first playlist link in `url`, store or embeddable form.
    pub fn new(url: &str) -> (r: Result<AmusicUrl, ValidationError>)
        ensures
            match r {
                Ok(link) => link.wf() && first_link(url@, link.name_view(), link.id_view()),
                Err(e) => e == ValidationError::NoValidAmusicUrl && !has_link(url@),
            },
    {
        let t = chars_of(url);
        let n = t.len();
        let mut i: usize = 0;
        while i < n
            invariant
                t@ == url@,
                n == t@.len(),
                i <= n,
                forall|j: int| 0 <= j < i ==> !link_starts_at(t@, j),
            decreases n - i,
        {
            if let Some((a, b, c)) = link_at_exec(&t, i) {
                let link_name = String::from_str(url.substring_char(a, b));
                let id = String::from_str(url.substring_char(c, n));
                return Ok(AmusicUrl { link_name, id });
            }
            i = i + 1;
        }
        proof {
            reveal_literals();
            assert forall|j: int| !link_starts_at(url@, j) by {
                if j >= n && link_starts_at(url@, j) {
                    assert(path_start(url@, j) is None);
                }
            }
        }
        Err(ValidationError::NoValidAmusicUrl)
    }

    /// The store link to the playlist, in the default locale, with the
    /// display name where there is one.
    pub fn url(&self) -> (r: String)
        ensures
            r@ == store_link(self.name_view(), self.id_view()),
    {
        let mut r = String::from_str(STORE_HOST);
        r.append(LOCALE);
        r.append(PLAYLIST);
        if !self.link_name.as_str().is_empty() {
            r.append(self.link_name.as_str());
            r.append(SLASH);
        }
        r.append(self.id.as_str());
        assert(r@ =~= store_link(self.name_view(), self.id_view()));
        r
    }

    /// The embeddable link to the playlist; it carries no display name.
    pub fn embed_url(&self) -> (r: String)
        ensures
            r@ == embed_link(self.id_view()),
    {
        let mut r = String::from_str(EMBED_HOST);
        r.append(PLAYLIST);
        r.append(self.id.as_str());
        assert(r@ =~= embed_link(self.id_view()));
        r
    }

    /// The display name; empty where the link carried none.
    pub fn link_name(&self) -> (r: &str)
        ensures
            r@ == self.name_view(),
    {
        self.link_name.as_str()
    }

    /// The playlist id.
    pub fn id(&self) -> (r: &str)
        ensures
            r@ == self.id_view(),
    {
        self.id.as_str()
    }
}

/// Reading back the embeddable link of a playlist link whose id does not
/// itself read as a display name, a slash and another id finds that id
/// first, with an empty display name, and nothing else.
pub proof fn lemma_embed_round_trip(x: AmusicUrl)
    requires
        x.wf(),
        !has_named_path(x.id_view()),
    ensures
        forall|name: Seq<char>, id: Seq<char>|
            #![auto]
            first_link(embed_link(x.id_view()), name, id) <==> (name.len() == 0 && id
                == x.id_view()),
{
    reveal_literals();
    let t = embed_link(x.id_view());
    lemma_split_at(t, 0, EMBED_HOST@, PLAYLIST@ + x.id_view());
    lemma_split_at(t, 37, PLAYLIST@, x.id_view());
    assert(t.subrange(0, t.len() as int) =~= t);
    assert(t[8] == 't');
    assert(!occurs_at(t, 0, STORE_HOST@)) by {
        if occurs_at(t, 0, STORE_HOST@) {
            assert(t.subrange(0, 25)[8] == 'i');
        }
    }
    assert(path_start(t, 0) == Some(47int));
    assert(link_at(t, 0, Seq::empty(), x.id_view()));
    assert(first_link(t, Seq::empty(), x.id_view()));
    assert forall|name: Seq<char>, id: Seq<char>| first_link(t, name, id) implies (name.len() == 0
        && id == x.id_view()) by {
        lemma_first_link_unique(t, name, id, Seq::empty(), x.id_view());
    }
    assert forall|name: Seq<char>, id: Seq<char>| (name.len() == 0 && id == x.id_view())
        implies first_link(t, name, id) by {
        assert(name =~= Seq::<char>::empty());
    }
}

/// Reading back the store link of a playlist link with a display name finds
/// that same playlist link first, and no other.
pub proof fn lemma_store_round_trip(x: AmusicUrl)
    requires
        x.wf(),
        x.name_view().len() > 0,
    ensures
        forall|name: Seq<char>, id: Seq<char>|
            #![auto]
            first_link(store_link(x.name_view(), x.id_view()), name, id) <==> (name
                == x.name_view() && id == x.id_view()),
{
    reveal_literals();
    let nm = x.name_view();
    let d = x.id_view();
    let t = store_link(nm, d);
    let path = nm + (SLASH@ + d);
    assert(t == STORE_HOST@ + (LOCALE@ + (PLAYLIST@ + path)));
    assert(t.subrange(0, t.len() as int) =~= t);
    lemma_split_at(t, 0, STORE_HOST@, LOCALE@ + (PLAYLIST@ + path));
    lemma_split_at(t, 25, LOCALE@, PLAYLIST@ + path);
    lemma_split_at(t, 27, PLAYLIST@, path);
    assert(path_start(t, 0) == Some(37int));
    assert(named_path(path, nm, d));
    assert(link_at(t, 0, nm, d));
    assert(first_link(t, nm, d));
    assert forall|name: Seq<char>, id: Seq<char>| first_link(t, name, id) implies (name == nm
        && id == d) by {
        lemma_first_link_unique(t, name, id, nm, d);
    }
}

} // verus!
