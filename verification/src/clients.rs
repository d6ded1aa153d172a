//! The InnerTube clients this player can present itself as. Google closes
//! clients every few months, so this is data: when one stops working the
//! table is edited and the preference reordered.
use crate::text::{has, str_contains, str_eq};
use vstd::prelude::*;

verus! {

/// How one YouTube client presents itself.
#[derive(Debug, Clone, Copy)]
pub struct ClientConfig {
    /// Short name used in logs and on the command line.
    pub id: &'static str,
    /// `context.client.clientName`.
    pub client_name: &'static str,
    /// `context.client.clientVersion`.
    pub client_version: &'static str,
    /// The `X-YouTube-Client-Name` header (YouTube's numeric id).
    pub client_name_id: u8,
    /// User agent, consistent with the client declared.
    pub user_agent: &'static str,
    /// Whether the video must be asked for as embedded.
    pub embedded: bool,
    /// Whether the client usually gets direct URLs (no `signatureCipher`).
    pub expects_direct_urls: bool,
}

/// The table of known clients, by short id.
pub open spec fn is_client(c: ClientConfig, id: Seq<char>) -> bool {
    &&& c.id@ == id
    &&& if id == "ios"@ {
        &&& c.client_name@ == "IOS"@
        &&& c.user_agent@ == "com.google.ios.youtube/20.10.4 (iPhone16,2; U; CPU iOS 18_3_2 like Mac OS X;)"@
        &&& c.client_version@ == "20.10.4"@
        &&& c.client_name_id == 5
        &&& !c.embedded && c.expects_direct_urls
    } else if id == "android_vr"@ {
        &&& c.client_name@ == "ANDROID_VR"@
        &&& c.user_agent@ == "com.google.android.apps.youtube.vr.oculus/1.62.27 (Linux; U; Android 12; GB) gzip"@
        &&& c.client_version@ == "1.62.27"@
        &&& c.client_name_id == 28
        &&& !c.embedded && c.expects_direct_urls
    } else if id == "tv"@ {
        &&& c.client_name@ == "TVHTML5"@
        &&& c.user_agent@ == "Mozilla/5.0 (ChromiumStylePlatform) Cobalt/Version"@
        &&& c.client_version@ == "7.20250219.14.00"@
        &&& c.client_name_id == 7
        &&& !c.embedded && !c.expects_direct_urls
    } else if id == "tv_embedded"@ {
        &&& c.client_name@ == "TVHTML5_SIMPLY_EMBEDDED_PLAYER"@
        &&& c.user_agent@ == "Mozilla/5.0 (ChromiumStylePlatform) Cobalt/Version"@
        &&& c.client_version@ == "2.0"@
        &&& c.client_name_id == 85
        &&& c.embedded && !c.expects_direct_urls
    } else if id == "web_remix"@ {
        &&& c.client_name@ == "WEB_REMIX"@
        &&& c.user_agent@ == "Mozilla/5.0 (Windows NT 10.0; Win64; x64) AppleWebKit/537.36 (KHTML, like Gecko) Chrome/133.0.0.0 Safari/537.36"@
        &&& c.client_version@ == "1.20250310.01.00"@
        &&& c.client_name_id == 67
        &&& !c.embedded && !c.expects_direct_urls
    } else if id == "mweb"@ {
        &&& c.client_name@ == "MWEB"@
        &&& c.user_agent@ == "Mozilla/5.0 (iPhone; CPU iPhone OS 18_3_2 like Mac OS X) AppleWebKit/605.1.15 (KHTML, like Gecko) Version/18.3 Mobile/15E148 Safari/604.1"@
        &&& c.client_version@ == "2.20250310.01.00"@
        &&& c.client_name_id == 2
        &&& !c.embedded && !c.expects_direct_urls
    } else {
        false
    }
}

/// The short ids of all known clients, in the order of [`all`].
pub open spec fn all_ids() -> Seq<Seq<char>> {
    seq!["ios"@, "android_vr"@, "tv"@, "tv_embedded"@, "mweb"@, "web_remix"@]
}

/// The short ids in the order of preference for playback.
pub open spec fn preferred_ids() -> Seq<Seq<char>> {
    seq!["ios"@, "android_vr"@, "tv_embedded"@, "tv"@, "mweb"@, "web_remix"@]
}

/// The short ids differ from one another.
proof fn lemma_ids_distinct()
    ensures
        forall|i: int, j: int| 0 <= i < j < 6 ==> all_ids()[i] != all_ids()[j],
{
    reveal_strlit("ios");
    reveal_strlit("android_vr");
    reveal_strlit("tv");
    reveal_strlit("tv_embedded");
    reveal_strlit("mweb");
    reveal_strlit("web_remix");
    assert(all_ids()[0].len() == 3 && all_ids()[1].len() == 10 && all_ids()[2].len() == 2);
    assert(all_ids()[3].len() == 11 && all_ids()[4].len() == 4 && all_ids()[5].len() == 9);
}

/// The iOS app: historically the most reliable for direct URLs.
pub fn ios() -> (c: ClientConfig)
    ensures
        is_client(c, "ios"@),
{
    ClientConfig {
        id: "ios",
        client_name: "IOS",
        client_version: "20.10.4",
        client_name_id: 5,
        user_agent: "com.google.ios.youtube/20.10.4 (iPhone16,2; U; CPU iOS 18_3_2 like Mac OS X;)",
        embedded: false,
        expects_direct_urls: true,
    }
}

/// YouTube VR for Quest: little watched, long without a poToken requirement.
pub fn android_vr() -> (c: ClientConfig)
    ensures
        is_client(c, "android_vr"@),
{
    proof {
        lemma_ids_distinct();
        assert(all_ids()[0] != all_ids()[1] && all_ids()[0] != all_ids()[2] && all_ids()[0] != all_ids()[3]);
        assert(all_ids()[1] != all_ids()[2] && all_ids()[1] != all_ids()[3] && all_ids()[2] != all_ids()[3]);
        assert(all_ids()[0] != all_ids()[4] && all_ids()[1] != all_ids()[4] && all_ids()[2] != all_ids()[4]);
        assert(all_ids()[3] != all_ids()[4] && all_ids()[0] != all_ids()[5] && all_ids()[1] != all_ids()[5]);
    }
    ClientConfig {
        id: "android_vr",
        client_name: "ANDROID_VR",
        client_version: "1.62.27",
        client_name_id: 28,
        user_agent: "com.google.android.apps.youtube.vr.oculus/1.62.27 (Linux; U; Android 12; GB) gzip",
        embedded: false,
        expects_direct_urls: true,
    }
}

/// Television sets: it often works when the mobile ones fail.
pub fn tv() -> (c: ClientConfig)
    ensures
        is_client(c, "tv"@),
{
    proof {
        lemma_ids_distinct();
        assert(all_ids()[0] != all_ids()[1] && all_ids()[0] != all_ids()[2] && all_ids()[0] != all_ids()[3]);
        assert(all_ids()[1] != all_ids()[2] && all_ids()[1] != all_ids()[3] && all_ids()[2] != all_ids()[3]);
        assert(all_ids()[0] != all_ids()[4] && all_ids()[1] != all_ids()[4] && all_ids()[2] != all_ids()[4]);
        assert(all_ids()[3] != all_ids()[4] && all_ids()[0] != all_ids()[5] && all_ids()[1] != all_ids()[5]);
    }
    ClientConfig {
        id: "tv",
        client_name: "TVHTML5",
        client_version: "7.20250219.14.00",
        client_name_id: 7,
        user_agent: "Mozilla/5.0 (ChromiumStylePlatform) Cobalt/Version",
        embedded: false,
        expects_direct_urls: false,
    }
}

/// The embedded television player: the classic fallback for restricted
/// videos.
pub fn tv_embedded() -> (c: ClientConfig)
    ensures
        is_client(c, "tv_embedded"@),
{
    proof {
        lemma_ids_distinct();
        assert(all_ids()[0] != all_ids()[1] && all_ids()[0] != all_ids()[2] && all_ids()[0] != all_ids()[3]);
        assert(all_ids()[1] != all_ids()[2] && all_ids()[1] != all_ids()[3] && all_ids()[2] != all_ids()[3]);
        assert(all_ids()[0] != all_ids()[4] && all_ids()[1] != all_ids()[4] && all_ids()[2] != all_ids()[4]);
        assert(all_ids()[3] != all_ids()[4] && all_ids()[0] != all_ids()[5] && all_ids()[1] != all_ids()[5]);
    }
    ClientConfig {
        id: "tv_embedded",
        client_name: "TVHTML5_SIMPLY_EMBEDDED_PLAYER",
        client_version: "2.0",
        client_name_id: 85,
        user_agent: "Mozilla/5.0 (ChromiumStylePlatform) Cobalt/Version",
        embedded: true,
        expects_direct_urls: false,
    }
}

/// The client music.youtube.com really uses. Its streams usually need
/// deciphering, so it comes last.
pub fn web_remix() -> (c: ClientConfig)
    ensures
        is_client(c, "web_remix"@),
{
    proof {
        lemma_ids_distinct();
        assert(all_ids()[0] != all_ids()[1] && all_ids()[0] != all_ids()[2] && all_ids()[0] != all_ids()[3]);
        assert(all_ids()[1] != all_ids()[2] && all_ids()[1] != all_ids()[3] && all_ids()[2] != all_ids()[3]);
        assert(all_ids()[0] != all_ids()[4] && all_ids()[1] != all_ids()[4] && all_ids()[2] != all_ids()[4]);
        assert(all_ids()[3] != all_ids()[4] && all_ids()[0] != all_ids()[5] && all_ids()[1] != all_ids()[5]);
    }
    ClientConfig {
        id: "web_remix",
        client_name: "WEB_REMIX",
        client_version: "1.20250310.01.00",
        client_name_id: 67,
        user_agent: "Mozilla/5.0 (Windows NT 10.0; Win64; x64) AppleWebKit/537.36 (KHTML, like Gecko) Chrome/133.0.0.0 Safari/537.36",
        embedded: false,
        expects_direct_urls: false,
    }
}

/// The mobile web: one more fallback.
pub fn mweb() -> (c: ClientConfig)
    ensures
        is_client(c, "mweb"@),
{
    proof {
        lemma_ids_distinct();
        assert(all_ids()[0] != all_ids()[1] && all_ids()[0] != all_ids()[2] && all_ids()[0] != all_ids()[3]);
        assert(all_ids()[1] != all_ids()[2] && all_ids()[1] != all_ids()[3] && all_ids()[2] != all_ids()[3]);
        assert(all_ids()[0] != all_ids()[4] && all_ids()[1] != all_ids()[4] && all_ids()[2] != all_ids()[4]);
        assert(all_ids()[3] != all_ids()[4] && all_ids()[0] != all_ids()[5] && all_ids()[1] != all_ids()[5]);
    }
    ClientConfig {
        id: "mweb",
        client_name: "MWEB",
        client_version: "2.20250310.01.00",
        client_name_id: 2,
        user_agent: "Mozilla/5.0 (iPhone; CPU iPhone OS 18_3_2 like Mac OS X) AppleWebKit/605.1.15 (KHTML, like Gecko) Version/18.3 Mobile/15E148 Safari/604.1",
        embedded: false,
        expects_direct_urls: false,
    }
}

/// All known clients, for probing.
pub fn all() -> (v: Vec<ClientConfig>)
    ensures
        v@.len() == 6,
        forall|i: int| 0 <= i < 6 ==> is_client(#[trigger] v@[i], all_ids()[i]),
{
    vec![ios(), android_vr(), tv(), tv_embedded(), mweb(), web_remix()]
}

/// The clients in the order they are tried for playback: the first that
/// gives a usable stream wins.
pub fn preferred() -> (v: Vec<ClientConfig>)
    ensures
        v@.len() == 6,
        forall|i: int| 0 <= i < 6 ==> is_client(#[trigger] v@[i], preferred_ids()[i]),
{
    vec![ios(), android_vr(), tv_embedded(), tv(), mweb(), web_remix()]
}

/// The client with a short id, if it is known.
pub fn by_id(id: &str) -> (r: Option<ClientConfig>)
    ensures
        match r {
            Some(c) => all_ids().contains(id@) && is_client(c, id@),
            None => !all_ids().contains(id@),
        },
{
    let v = all();
    let mut i: usize = 0;
    while i < v.len()
        invariant
            v@.len() == 6,
            forall|j: int| 0 <= j < 6 ==> is_client(#[trigger] v@[j], all_ids()[j]),
            0 <= i <= 6,
            forall|j: int| 0 <= j < i ==> all_ids()[j] != id@,
        decreases 6 - i,
    {
        let c = v[i];
        proof {
            assert(is_client(v@[i as int], all_ids()[i as int]));
        }
        if str_eq(c.id, id) {
            proof {
                assert(all_ids()[i as int] == id@);
            }
            return Some(c);
        }
        i = i + 1;
    }
    proof {
        assert forall|j: int| 0 <= j < all_ids().len() implies all_ids()[j] != id@ by {}
    }
    None
}

/// Whether a client belongs to YouTube Music, whose player lives on its own
/// origin: asked from www.youtube.com it answers `UNPLAYABLE`.
pub fn is_music(c: &ClientConfig) -> (b: bool)
    ensures
        b == (has(c.client_name@, "MUSIC"@) || c.client_name@ == "WEB_REMIX"@),
{
    str_contains(c.client_name, "MUSIC") || str_eq(c.client_name, "WEB_REMIX")
}

/// The `player` endpoint and the origin a client's request is sent with.
pub fn player_endpoint(c: &ClientConfig) -> (r: (&'static str, &'static str))
    ensures
        (has(c.client_name@, "MUSIC"@) || c.client_name@ == "WEB_REMIX"@) ==> r.0@
            == "https://music.youtube.com/youtubei/v1/player"@ && r.1@
            == "https://music.youtube.com"@,
        !(has(c.client_name@, "MUSIC"@) || c.client_name@ == "WEB_REMIX"@) ==> r.0@
            == "https://www.youtube.com/youtubei/v1/player"@ && r.1@ == "https://www.youtube.com"@,
{
    if is_music(c) {
        ("https://music.youtube.com/youtubei/v1/player", "https://music.youtube.com")
    } else {
        ("https://www.youtube.com/youtubei/v1/player", "https://www.youtube.com")
    }
}

} // verus!
