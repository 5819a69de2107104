//! Links to playlists of the streaming service.
use vstd::prelude::*;
use crate::error::ValidationError;
use crate::text::{
    chars_of, first_slash, lemma_first_slash_ends, lemma_slash_split_unique, lemma_split_at,
    occurs_at, occurs_at_exec,
};

verus! {

/// Scheme and host of every link.
pub const HOST: &'static str = "https://open.spotify.com/";

/// Path segment of the embeddable form.
pub const EMBED: &'static str = "embed/";

/// Path segment before the owner.
pub const USER: &'static str = "user/";

/// Path segment between the owner and the playlist id.
pub const PLAYLIST: &'static str = "/playlist/";

/// The canonical link to playlist `id` of `user`.
pub open spec fn canonical_link(user: Seq<char>, id: Seq<char>) -> Seq<char> {
    HOST@ + (USER@ + (user + (PLAYLIST@ + id)))
}

/// The embeddable link to playlist `id` of `user`.
pub open spec fn embed_link(user: Seq<char>, id: Seq<char>) -> Seq<char> {
    HOST@ + (EMBED@ + (USER@ + (user + (PLAYLIST@ + id))))
}

/// An owner handle: one or more characters, none of them a slash.
pub open spec fn valid_user(user: Seq<char>) -> bool {
    user.len() > 0 && !user.contains('/')
}

/// From position `i` to its end, `t` is a link, in either form, to the
/// playlist `id` of `user`.
pub open spec fn link_at(t: Seq<char>, i: int, user: Seq<char>, id: Seq<char>) -> bool {
    &&& 0 <= i <= t.len()
    &&& valid_user(user)
    &&& id.len() > 0
    &&& (t.subrange(i, t.len() as int) == canonical_link(user, id) || t.subrange(
        i,
        t.len() as int,
    ) == embed_link(user, id))
}

/// A link starts at position `i` of `t`.
pub open spec fn link_starts_at(t: Seq<char>, i: int) -> bool {
    exists|user: Seq<char>, id: Seq<char>| link_at(t, i, user, id)
}

/// A link starts somewhere in `t`.
pub open spec fn has_link(t: Seq<char>) -> bool {
    exists|i: int| link_starts_at(t, i)
}

/// The first link in `t` is to the playlist `id` of `user`.
pub open spec fn first_link(t: Seq<char>, user: Seq<char>, id: Seq<char>) -> bool {
    exists|i: int|
        link_at(t, i, user, id) && forall|j: int| 0 <= j < i ==> !link_starts_at(t, j)
}

/// The lengths of the fixed segments, and the characters that tell them apart.
proof fn reveal_literals()
    ensures
        HOST@.len() == 25,
        EMBED@.len() == 6 && EMBED@[0] == 'e',
        USER@.len() == 5 && USER@[0] == 'u',
        PLAYLIST@.len() == 10 && PLAYLIST@[0] == '/',
{
    reveal_strlit("https://open.spotify.com/");
    reveal_strlit("embed/");
    reveal_strlit("user/");
    reveal_strlit("/playlist/");
}

/// What a link at position `i` shows of `t`: the host, the optional
/// embed segment, the user segment, then the owner and the rest.
proof fn lemma_link_facts(t: Seq<char>, i: int, user: Seq<char>, id: Seq<char>)
    requires
        link_at(t, i, user, id),
    ensures
        occurs_at(t, i, HOST@),
        occurs_at(t, i + HOST@.len(), EMBED@) <==> t.subrange(i, t.len() as int) == embed_link(
            user,
            id,
        ),
        ({
            let j = i + HOST@.len();
            let k = if occurs_at(t, j, EMBED@) {
                j + EMBED@.len()
            } else {
                j
            };
            &&& occurs_at(t, k, USER@)
            &&& k + USER@.len() <= t.len()
            &&& t.subrange(k + USER@.len(), t.len() as int) == user + (PLAYLIST@ + id)
        }),
{
    reveal_literals();
    let j = i + HOST@.len();
    lemma_split_at(t, i, HOST@, t.subrange(j, t.len() as int));
    if t.subrange(i, t.len() as int) == embed_link(user, id) {
        lemma_split_at(t, i, HOST@, EMBED@ + (USER@ + (user + (PLAYLIST@ + id))));
        lemma_split_at(t, j, EMBED@, USER@ + (user + (PLAYLIST@ + id)));
        lemma_split_at(t, j + 6, USER@, user + (PLAYLIST@ + id));
    } else {
        lemma_split_at(t, i, HOST@, USER@ + (user + (PLAYLIST@ + id)));
        lemma_split_at(t, j, USER@, user + (PLAYLIST@ + id));
        assert(t[j] == 'u');
        if occurs_at(t, j, EMBED@) {
            assert(t.subrange(j, j + 6)[0] == 'e');
        }
        assert(t.subrange(i, t.len() as int) == canonical_link(user, id));
    }
}

/// At most one link starts at a position.
proof fn lemma_link_unique(
    t: Seq<char>,
    i: int,
    user1: Seq<char>,
    id1: Seq<char>,
    user2: Seq<char>,
    id2: Seq<char>,
)
    requires
        link_at(t, i, user1, id1),
        link_at(t, i, user2, id2),
    ensures
        user1 == user2,
        id1 == id2,
{
    reveal_literals();
    lemma_link_facts(t, i, user1, id1);
    lemma_link_facts(t, i, user2, id2);
    let j = i + HOST@.len();
    let k = if occurs_at(t, j, EMBED@) {
        j + EMBED@.len()
    } else {
        j
    };
    let rest = t.subrange(k + USER@.len(), t.len() as int);
    lemma_slash_split_unique(rest, user1, PLAYLIST@ + id1, user2, PLAYLIST@ + id2);
    assert(id1 =~= (PLAYLIST@ + id1).subrange(10, (PLAYLIST@ + id1).len() as int));
    assert(id2 =~= (PLAYLIST@ + id2).subrange(10, (PLAYLIST@ + id2).len() as int));
}

/// Finds the link that starts at position `i` of `t`, if any: the owner is
/// `t[a..b]` and the playlist id is `t[c..]`.
fn link_at_exec(t: &Vec<char>, i: usize) -> (r: Option<(usize, usize, usize)>)
    requires
        i <= t@.len(),
    ensures
        match r {
            Some((a, b, c)) => {
                &&& a <= b <= c <= t@.len()
                &&& link_at(t@, i as int, t@.subrange(a as int, b as int), t@.subrange(c as int, t@.len() as int))
            },
            None => !link_starts_at(t@, i as int),
        },
{
    proof {
        reveal_literals();
    }
    let n = t.len();
    let host = chars_of(HOST);
    let embed = chars_of(EMBED);
    let user = chars_of(USER);
    let playlist = chars_of(PLAYLIST);
    if !occurs_at_exec(t, i, &host) {
        proof {
            assert forall|u: Seq<char>, d: Seq<char>| !link_at(t@, i as int, u, d) by {
                if link_at(t@, i as int, u, d) {
                    lemma_link_facts(t@, i as int, u, d);
                }
            }
        }
        return None;
    }
    let j = i + host.len();
    let k = if occurs_at_exec(t, j, &embed) {
        j + embed.len()
    } else {
        j
    };
    if !occurs_at_exec(t, k, &user) {
        proof {
            assert forall|u: Seq<char>, d: Seq<char>| !link_at(t@, i as int, u, d) by {
                if link_at(t@, i as int, u, d) {
                    lemma_link_facts(t@, i as int, u, d);
                }
            }
        }
        return None;
    }
    let a = k + user.len();
    let b = first_slash(t, a);
    if b == a || !occurs_at_exec(t, b, &playlist) || b + playlist.len() == n {
        proof {
            assert forall|u: Seq<char>, d: Seq<char>| !link_at(t@, i as int, u, d) by {
                if link_at(t@, i as int, u, d) {
                    lemma_link_facts(t@, i as int, u, d);
                    lemma_first_slash_ends(t@, a as int, b as int, u, PLAYLIST@ + d);
                    lemma_split_at(t@, a as int, u, PLAYLIST@ + d);
                    lemma_split_at(t@, b as int, PLAYLIST@, d);
                }
            }
        }
        return None;
    }
    proof {
        let ghost u = t@.subrange(a as int, b as int);
        let ghost d = t@.subrange(b + 10, t@.len() as int);
        assert forall|m: int| 0 <= m < u.len() implies u[m] != '/' by {
            assert(u[m] == t@[a + m]);
        }
        lemma_split_at(t@, b as int, PLAYLIST@, d);
        lemma_split_at(t@, a as int, u, PLAYLIST@ + d);
        lemma_split_at(t@, k as int, USER@, u + (PLAYLIST@ + d));
        if k != j {
            lemma_split_at(t@, j as int, EMBED@, USER@ + (u + (PLAYLIST@ + d)));
            lemma_split_at(t@, i as int, HOST@, EMBED@ + (USER@ + (u + (PLAYLIST@ + d))));
        } else {
            lemma_split_at(t@, i as int, HOST@, USER@ + (u + (PLAYLIST@ + d)));
        }
    }
    Some((a, b, b + playlist.len()))
}

/// The first link in a text is determined by the text.
pub proof fn lemma_first_link_unique(t: Seq<char>, user1: Seq<char>, id1: Seq<char>, user2: Seq<char>, id2: Seq<char>)
    requires
        first_link(t, user1, id1),
        first_link(t, user2, id2),
    ensures
        user1 == user2,
        id1 == id2,
{
    let i1 = choose|i: int| link_at(t, i, user1, id1) && forall|j: int| 0 <= j < i ==> !link_starts_at(t, j);
    let i2 = choose|i: int| link_at(t, i, user2, id2) && forall|j: int| 0 <= j < i ==> !link_starts_at(t, j);
    if i1 < i2 {
        assert(link_starts_at(t, i1));
    } else if i2 < i1 {
        assert(link_starts_at(t, i2));
    } else {
        lemma_link_unique(t, i1, user1, id1, user2, id2);
    }
}

/// A link to a valid playlist is the first link in itself.
proof fn lemma_first_link_of_itself(t: Seq<char>, user: Seq<char>, id: Seq<char>)
    requires
        valid_user(user),
        id.len() > 0,
        t == canonical_link(user, id) || t == embed_link(user, id),
    ensures
        first_link(t, user, id),
{
    assert(t.subrange(0, t.len() as int) =~= t);
    assert(link_at(t, 0, user, id));
}

/// A link to a playlist of the streaming service: the owner's handle and
/// the playlist id.
#[derive(Debug, Clone)]
pub struct SpotifyUrl {
    user: String,
    id: String,
}

impl SpotifyUrl {
    /// The owner's handle.
    pub closed spec fn user_view(&self) -> Seq<char> {
        self.user@
    }

    /// The playlist id.
    pub closed spec fn id_view(&self) -> Seq<char> {
        self.id@
    }

    /// A non-empty handle without a slash, and a non-empty id.
    pub open spec fn wf(&self) -> bool {
        valid_user(self.user_view()) && self.id_view().len() > 0
    }

    /// Reads the first playlist link in `url`, canonical or embeddable.
    pub fn new(url: &str) -> (r: Result<SpotifyUrl, ValidationError>)
        ensures
            match r {
                Ok(link) => link.wf() && first_link(url@, link.user_view(), link.id_view()),
                Err(e) => e == ValidationError::NoValidSpoityUrl && !has_link(url@),
            },
    {
        let t = chars_of(url);
        let n = t.len();
        let mut i: usize = 0;
        while i < n
            invariant
                t@ == url@,
                n == t@.len(),
                i <= n,
                forall|j: int| 0 <= j < i ==> !link_starts_at(t@, j),
            decreases n - i,
        {
            if let Some((a, b, c)) = link_at_exec(&t, i) {
                let user = String::from_str(url.substring_char(a, b));
                let id = String::from_str(url.substring_char(c, n));
                return Ok(SpotifyUrl { user, id });
            }
            i = i + 1;
        }
        proof {
            reveal_literals();
            assert forall|j: int| !link_starts_at(url@, j) by {
                if j >= n && link_starts_at(url@, j) {
                    let (u, d) = choose|u: Seq<char>, d: Seq<char>| link_at(url@, j, u, d);
                    assert(url@.subrange(j, url@.len() as int).len() == 0);
                }
            }
        }
        Err(ValidationError::NoValidSpoityUrl)
    }

    /// The canonical link to the playlist.
    pub fn url(&self) -> (r: String)
        ensures
            r@ == canonical_link(self.user_view(), self.id_view()),
    {
        let mut r = String::from_str(HOST);
        r.append(USER);
        r.append(self.user.as_str());
        r.append(PLAYLIST);
        r.append(self.id.as_str());
        assert(r@ =~= canonical_link(self.user_view(), self.id_view()));
        r
    }

    /// The embeddable link to the playlist.
    pub fn embed_url(&self) -> (r: String)
        ensures
            r@ == embed_link(self.user_view(), self.id_view()),
    {
        let mut r = String::from_str(HOST);
        r.append(EMBED);
        r.append(USER);
        r.append(self.user.as_str());
        r.append(PLAYLIST);
        r.append(self.id.as_str());
        assert(r@ =~= embed_link(self.user_view(), self.id_view()));
        r
    }

    /// The owner's handle.
    pub fn user(&self) -> (r: &str)
        ensures
            r@ == self.user_view(),
    {
        self.user.as_str()
    }

    /// The playlist id.
    pub fn id(&self) -> (r: &str)
        ensures
            r@ == self.id_view(),
    {
        self.id.as_str()
    }
}

/// Reading back either link that a playlist link writes finds that same
/// playlist link first, and no other.
pub proof fn lemma_link_round_trip(x: SpotifyUrl)
    requires
        x.wf(),
    ensures
        forall|user: Seq<char>, id: Seq<char>|
            #![auto]
            first_link(canonical_link(x.user_view(), x.id_view()), user, id) <==> (user
                == x.user_view() && id == x.id_view()),
        forall|user: Seq<char>, id: Seq<char>|
            #![auto]
            first_link(embed_link(x.user_view(), x.id_view()), user, id) <==> (user
                == x.user_view() && id == x.id_view()),
{
    let canonical = canonical_link(x.user_view(), x.id_view());
    let embed = embed_link(x.user_view(), x.id_view());
    lemma_first_link_of_itself(canonical, x.user_view(), x.id_view());
    lemma_first_link_of_itself(embed, x.user_view(), x.id_view());
    assert forall|user: Seq<char>, id: Seq<char>| first_link(canonical, user, id) implies (user
        == x.user_view() && id == x.id_view()) by {
        lemma_first_link_unique(canonical, user, id, x.user_view(), x.id_view());
    }
    assert forall|user: Seq<char>, id: Seq<char>| first_link(embed, user, id) implies (user
        == x.user_view() && id == x.id_view()) by {
        lemma_first_link_unique(embed, user, id, x.user_view(), x.id_view());
    }
}

} // verus!
