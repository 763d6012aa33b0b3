//! What a daemon shows to remote clients: a certificate that it signed itself, and the token that they
//! must show in return.

use vstd::prelude::*;

use base64::Engine;

use crate::config::resolve;
use crate::config::resolve::state_dir;
use crate::config::vars::Vars;
use crate::daemon::command::env_texts;
use crate::daemon::login_env;
use crate::path::joined;
use crate::proto::auth;
use crate::proto::auth::{hex_text, sha256_of};
use crate::text;
use crate::text::{is_white, trim_end, trim_start, trimmed};

verus! {

/// A certificate, its key, and the token of remote clients.
pub struct RemoteCreds {
    pub cert_pem: String,
    pub key_pem: String,
    pub token: String,
    /// The certificate once more, as fingerprints are taken of it.
    pub cert_der: Vec<u8>,
}

/// What is found where certificates are looked for in a PEM text, in order: a certificate, or what is
/// wrong with the text at that place.
pub uninterp spec fn pem_certs(pem: Seq<char>) -> Seq<Result<Seq<u8>, Seq<char>>>;

/// A certificate that was found, or what was wrong.
pub open spec fn found_view(r: Result<Vec<u8>, String>) -> Result<Seq<u8>, Seq<char>> {
    match r {
        Ok(der) => Ok(der@),
        Err(e) => Err(e@),
    }
}

/// What was found where certificates were looked for.
pub open spec fn found_views(all: Seq<Result<Vec<u8>, String>>) -> Seq<Result<Seq<u8>, Seq<char>>> {
    all.map_values(|r: Result<Vec<u8>, String>| found_view(r))
}

/// `rustls_pemfile::certs`: what it yields is a function of the text alone, here `pem_certs`.
#[verifier::external_body]
fn read_certs(pem: &str) -> (all: Vec<Result<Vec<u8>, String>>)
    ensures
        found_views(all@) == pem_certs(pem@),
{
    rustls_pemfile::certs(&mut pem.as_bytes())
        .map(|r| r.map(|c| c.to_vec()).map_err(|e| e.to_string()))
        .collect()
}

/// The first private key in a PEM text, nothing where there is none, or what is wrong with the text
/// before one is found.
pub uninterp spec fn pem_key(pem: Seq<char>) -> Result<Option<Seq<u8>>, Seq<char>>;

/// What was found where a key was looked for.
pub open spec fn key_view(r: Result<Option<Vec<u8>>, String>) -> Result<Option<Seq<u8>>, Seq<char>> {
    match r {
        Ok(Some(der)) => Ok(Some(der@)),
        Ok(None) => Ok(None),
        Err(e) => Err(e@),
    }
}

/// `rustls_pemfile::private_key`: what it finds is a function of the text alone, here `pem_key`.
#[verifier::external_body]
fn read_key(pem: &str) -> (r: Result<Option<Vec<u8>>, String>)
    ensures
        key_view(r) == pem_key(pem@),
{
    rustls_pemfile::private_key(&mut pem.as_bytes())
        .map(|found| found.map(|key| key.secret_der().to_vec()))
        .map_err(|e| e.to_string())
}

/// The first certificate in a PEM text, or what is wrong with the text before one is found; nothing where
/// there is none.
pub open spec fn first_cert(pem: Seq<char>) -> Option<Result<Seq<u8>, Seq<char>>> {
    if pem_certs(pem).len() == 0 {
        None
    } else {
        Some(pem_certs(pem)[0])
    }
}

fn read_first_cert(pem: &str) -> (r: Option<Result<Vec<u8>, String>>)
    ensures
        (match r {
            Some(found) => Some(found_view(found)),
            None => None,
        }) == first_cert(pem@),
{
    let mut all = read_certs(pem);
    assert(found_views(all@).len() == all@.len());
    if all.len() == 0 {
        None
    } else {
        assert(found_views(all@)[0] == found_view(all@[0]));
        Some(all.swap_remove(0))
    }
}

/// `rcgen::generate_simple_self_signed`: a new certificate for a name, as PEM, its key as PEM, and the
/// certificate once more as DER. The key is chance. The one PEM holds the certificate that the DER is and
/// nothing else, and in the other a key is found. What the certificate says of the name is left unsaid
/// here.
#[verifier::external_body]
fn self_signed(name: &str) -> (r: Result<(String, String, Vec<u8>), String>)
    ensures
        r matches Ok((cert, key, der)) ==> {
            &&& pem_certs(cert@) == seq![Ok::<Seq<u8>, Seq<char>>(der@)]
            &&& pem_key(key@) matches Ok(Some(_))
        },
{
    rcgen::generate_simple_self_signed(vec![name.to_string()])
        .map(|c| (c.cert.pem(), c.key_pair.serialize_pem(), c.cert.der().to_vec()))
        .map_err(|e| e.to_string())
}

/// The name that the certificate of a daemon is for.
pub fn cert_name() -> (n: &'static str)
    ensures
        n@ == "clowder"@,
{
    "clowder"
}

/// The first that is wrong in what was found, from index `from` on.
pub open spec fn first_wrong(all: Seq<Result<Seq<u8>, Seq<char>>>, from: int) -> Option<Seq<char>>
    decreases all.len() - from,
{
    if from < 0 || from >= all.len() {
        None
    } else {
        match all[from] {
            Err(why) => Some(why),
            Ok(_) => first_wrong(all, from + 1),
        }
    }
}

/// What a TLS server is made of: all the certificates that were found, and the key. There is none where
/// anything was wrong, or where there is no key.
pub open spec fn are_tls_parts(
    certs: Seq<Result<Seq<u8>, Seq<char>>>,
    key: Result<Option<Seq<u8>>, Seq<char>>,
    r: Result<(Vec<Vec<u8>>, Vec<u8>), String>,
) -> bool {
    match first_wrong(certs, 0) {
        Some(why) => r matches Err(e) && e@ == why,
        None => match key {
            Err(why) => r matches Err(e) && e@ == why,
            Ok(None) => r matches Err(e) && e@ == "no private key in PEM"@,
            Ok(Some(der)) => {
                &&& r matches Ok((chain, k))
                &&& certs == chain@.map_values(|c: Vec<u8>| Ok::<Seq<u8>, Seq<char>>(c@))
                &&& k@ == der
            },
        },
    }
}

/// What a TLS server is made of, out of what was found in its credentials.
pub fn tls_parts_of(
    certs: Vec<Result<Vec<u8>, String>>,
    key: Result<Option<Vec<u8>>, String>,
) -> (r: Result<(Vec<Vec<u8>>, Vec<u8>), String>)
    ensures
        are_tls_parts(found_views(certs@), key_view(key), r),
{
    let ghost all = found_views(certs@);
    let mut chain: Vec<Vec<u8>> = Vec::new();
    let mut i: usize = 0;
    while i < certs.len()
        invariant
            i <= certs.len(),
            all == found_views(certs@),
            chain@.len() == i,
            first_wrong(all, 0) == first_wrong(all, i as int),
            forall|k: int| 0 <= k < i ==> #[trigger] all[k] == Ok::<Seq<u8>, Seq<char>>(chain@[k]@),
        decreases certs.len() - i,
    {
        assert(all[i as int] == found_view(certs@[i as int]));
        match &certs[i] {
            Ok(der) => {
                let ghost before = chain@;
                let copy = der.clone();
                assert(copy@ =~= der@);
                chain.push(copy);
                assert forall|k: int| 0 <= k < i + 1 implies #[trigger] all[k] == Ok::<
                    Seq<u8>,
                    Seq<char>,
                >(chain@[k]@) by {
                    if k < i {
                        assert(chain@[k] == before[k]);
                    }
                }
            },
            Err(why) => return Err(why.clone()),
        }
        i = i + 1;
    }
    assert(all =~= chain@.map_values(|c: Vec<u8>| Ok::<Seq<u8>, Seq<char>>(c@)));
    match key {
        Err(why) => Err(why),
        Ok(None) => Err("no private key in PEM".to_owned()),
        Ok(Some(der)) => Ok((chain, der)),
    }
}

/// What the TLS server of a daemon is made of.
pub fn tls_parts(creds: &RemoteCreds) -> (r: Result<(Vec<Vec<u8>>, Vec<u8>), String>)
    ensures
        are_tls_parts(pem_certs(creds.cert_pem@), pem_key(creds.key_pem@), r),
{
    tls_parts_of(read_certs(creds.cert_pem.as_str()), read_key(creds.key_pem.as_str()))
}

/// The character is one that base64 text for URLs is made of.
pub open spec fn url_safe(c: char) -> bool {
    'A' <= c <= 'Z' || 'a' <= c <= 'z' || '0' <= c <= '9' || c == '-' || c == '_'
}

/// Bytes as base64 text for URLs, without padding.
pub uninterp spec fn base64url(bytes: Seq<u8>) -> Seq<char>;

/// `URL_SAFE_NO_PAD.encode` of `base64`: the result is a function of the bytes alone, here `base64url`. It
/// is made of letters, digits, dashes and underscores, four for three bytes and as many as are needed
/// for the rest.
#[verifier::external_body]
fn to_base64url(bytes: &[u8]) -> (s: String)
    ensures
        s@ == base64url(bytes@),
        s@.len() == (4 * bytes@.len() + 2) / 3,
        forall|i: int| 0 <= i < s@.len() ==> url_safe(#[trigger] s@[i]),
{
    base64::engine::general_purpose::URL_SAFE_NO_PAD.encode(bytes)
}

/// Whether the stored credentials are used: only where all three files are there.
pub fn is_stored(cert: bool, key: bool, token: bool) -> (yes: bool)
    ensures
        yes == (cert && key && token),
{
    cert && key && token
}

/// What the stored files come to.
pub open spec fn is_loaded(
    cert_pem: Seq<char>,
    key_pem: Seq<char>,
    token: Seq<char>,
    r: Result<RemoteCreds, String>,
) -> bool {
    match first_cert(cert_pem) {
        None => r matches Err(e) && e@ == "no certificate in PEM"@,
        Some(Err(why)) => r matches Err(e) && e@ == why,
        Some(Ok(der)) => {
            &&& r matches Ok(c)
            &&& c.cert_pem@ == cert_pem
            &&& c.key_pem@ == key_pem
            &&& c.token@ == trimmed(token)
            &&& c.cert_der@ == der
        },
    }
}

/// The credentials in the stored files. White space around the token does not count.
pub fn load_creds(cert_pem: String, key_pem: String, token: &str) -> (r: Result<RemoteCreds, String>)
    ensures
        is_loaded(cert_pem@, key_pem@, token@, r),
{
    match read_first_cert(cert_pem.as_str()) {
        None => Err("no certificate in PEM".to_owned()),
        Some(Err(e)) => Err(e),
        Some(Ok(cert_der)) => Ok(
            RemoteCreds { cert_pem, key_pem, token: text::trim(token), cert_der },
        ),
    }
}

proof fn lemma_trim_nothing(s: Seq<char>)
    requires
        forall|i: int| 0 <= i < s.len() ==> !is_white(#[trigger] s[i]),
    ensures
        trimmed(s) == s,
{
    if s.len() > 0 {
        assert(!is_white(s[0]));
        assert(!is_white(s[s.len() - 1]));
    }
    assert(trim_start(s) == s);
    assert(trim_end(s) == s);
}

/// What a new certificate and bytes that are chance come to, or why there were none to be had. The token
/// reads back as it is written.
pub open spec fn is_made_of(
    cert: Result<(String, String, Vec<u8>), String>,
    raw: Result<Vec<u8>, String>,
    r: Result<RemoteCreds, String>,
) -> bool {
    match cert {
        Err(_) => r matches Err(e) && e@ == "generate self-signed cert"@,
        Ok((pem, key, der)) => match raw {
            Err(why) => r matches Err(e) && e@ == "getrandom: "@ + why@,
            Ok(bytes) => {
                &&& r matches Ok(c)
                &&& c.cert_pem == pem
                &&& c.key_pem == key
                &&& c.cert_der == der
                &&& c.token@ == base64url(bytes@)
                &&& c.token@.len() == (4 * bytes@.len() + 2) / 3
                &&& trimmed(c.token@) == c.token@
            },
        },
    }
}

/// New credentials from a new certificate and from bytes that are chance, or why there are none.
pub fn creds_from(
    cert: Result<(String, String, Vec<u8>), String>,
    raw: Result<Vec<u8>, String>,
) -> (r: Result<RemoteCreds, String>)
    ensures
        is_made_of(cert, raw, r),
{
    let (cert_pem, key_pem, cert_der) = match cert {
        Ok(c) => c,
        Err(_) => return Err("generate self-signed cert".to_owned()),
    };
    let raw = match raw {
        Ok(b) => b,
        Err(why) => {
            let mut m = "getrandom: ".to_owned();
            m.append(why.as_str());
            return Err(m);
        },
    };
    let token = to_base64url(&raw);
    proof {
        assert forall|i: int| 0 <= i < token@.len() implies !is_white(#[trigger] token@[i]) by {
            assert(url_safe(token@[i]));
        }
        lemma_trim_nothing(token@);
    }
    Ok(RemoteCreds { cert_pem, key_pem, token, cert_der })
}

/// New credentials from a new certificate, and with a token out of 32 bytes of chance. It fails only
/// where one of the two cannot be had, and says which. What is stored of new credentials loads to the
/// same again.
pub fn generate_creds() -> (r: Result<RemoteCreds, String>)
    ensures
        exists|cert: Result<(String, String, Vec<u8>), String>, raw: Result<Vec<u8>, String>|
            {
                &&& #[trigger] is_made_of(cert, raw, r)
                &&& cert matches Ok((pem, key, der)) ==> {
                    &&& pem_certs(pem@) == seq![Ok::<Seq<u8>, Seq<char>>(der@)]
                    &&& pem_key(key@) matches Ok(Some(_))
                }
                &&& raw matches Ok(bytes) ==> bytes@.len() == 32
            },
        r matches Ok(c) ==> {
            &&& pem_certs(c.cert_pem@) == seq![Ok::<Seq<u8>, Seq<char>>(c.cert_der@)]
            &&& pem_key(c.key_pem@) matches Ok(Some(_))
            &&& trimmed(c.token@) == c.token@
            &&& c.token@.len() == 43
        },
{
    let cert = self_signed(cert_name());
    let raw = login_env::random_bytes(32);
    let ghost (made, chance) = (cert, raw);
    let r = creds_from(cert, raw);
    assert(is_made_of(made, chance, r));
    r
}

/// Credentials that were stored are loaded as they were, so a daemon keeps its fingerprint and its token
/// when it starts again.
pub proof fn law_stored_credentials_load_again(c: RemoteCreds, r: Result<RemoteCreds, String>)
    requires
        first_cert(c.cert_pem@) == Some(Ok::<Seq<u8>, Seq<char>>(c.cert_der@)),
        trimmed(c.token@) == c.token@,
        is_loaded(c.cert_pem@, c.key_pem@, c.token@, r),
    ensures
        r matches Ok(d) && d.cert_pem@ == c.cert_pem@ && d.key_pem@ == c.key_pem@ && d.token@ == c.token@
            && d.cert_der@ == c.cert_der@,
{
}

/// A TLS server can be made of new credentials, with their one certificate.
pub proof fn law_new_credentials_make_a_server(c: RemoteCreds, r: Result<(Vec<Vec<u8>>, Vec<u8>), String>)
    requires
        pem_certs(c.cert_pem@) == seq![Ok::<Seq<u8>, Seq<char>>(c.cert_der@)],
        pem_key(c.key_pem@) matches Ok(Some(_)),
        are_tls_parts(pem_certs(c.cert_pem@), pem_key(c.key_pem@), r),
    ensures
        r matches Ok((chain, key)) && chain@.len() == 1 && chain@[0]@ == c.cert_der@ && pem_key(c.key_pem@)
            == Ok::<Option<Seq<u8>>, Seq<char>>(Some(key@)),
{
    let certs = pem_certs(c.cert_pem@);
    reveal_with_fuel(first_wrong, 2);
    assert(first_wrong(certs, 0) is None);
    if let Ok((chain, key)) = r {
        let shown = chain@.map_values(|c: Vec<u8>| Ok::<Seq<u8>, Seq<char>>(c@));
        assert(shown.len() == chain@.len());
        assert(shown[0] == Ok::<Seq<u8>, Seq<char>>(chain@[0]@));
    }
}

/// The fingerprint of the certificate.
pub fn fingerprint(creds: &RemoteCreds) -> (fp: String)
    ensures
        fp@ == hex_text(sha256_of(creds.cert_der@)),
{
    auth::cert_fingerprint_hex(&creds.cert_der)
}

/// The files to write, and what each holds.
pub open spec fn are_stored(env: Vars, creds: RemoteCreds, files: Seq<(Seq<char>, Seq<char>)>) -> bool {
    files == seq![
        (joined(state_dir(env), "remote-cert.pem"@), creds.cert_pem@),
        (joined(state_dir(env), "remote-key.pem"@), creds.key_pem@),
        (joined(state_dir(env), "remote-token"@), creds.token@),
    ]
}

/// The files to write, and what each holds.
pub fn stored_files(env: &Vars, creds: &RemoteCreds) -> (files: Vec<(String, String)>)
    ensures
        are_stored(*env, *creds, env_texts(files@)),
{
    let mut files: Vec<(String, String)> = Vec::new();
    files.push((resolve::remote_cert_path(env), creds.cert_pem.clone()));
    files.push((resolve::remote_key_path(env), creds.key_pem.clone()));
    files.push((resolve::remote_token_path(env), creds.token.clone()));
    assert(env_texts(files@) =~= seq![
        (joined(state_dir(*env), "remote-cert.pem"@), creds.cert_pem@),
        (joined(state_dir(*env), "remote-key.pem"@), creds.key_pem@),
        (joined(state_dir(*env), "remote-token"@), creds.token@),
    ]);
    files
}

/// What is read back from the three files of the credentials is what was written to them: the certificate
/// from the file of the certificate, the key from that of the key, and the token from that of the token. The
/// three are different files.
pub proof fn law_each_credential_has_its_file(env: Vars, creds: RemoteCreds, files: Seq<(Seq<char>, Seq<char>)>)
    requires
        are_stored(env, creds, files),
    ensures
        files.len() == 3,
        forall|k: int| 0 <= k < 3 ==> {
            let file = #[trigger] files[k];
            &&& file.0 == joined(state_dir(env), "remote-cert.pem"@) ==> file.1 == creds.cert_pem@
            &&& file.0 == joined(state_dir(env), "remote-key.pem"@) ==> file.1 == creds.key_pem@
            &&& file.0 == joined(state_dir(env), "remote-token"@) ==> file.1 == creds.token@
        },
        files.contains((joined(state_dir(env), "remote-cert.pem"@), creds.cert_pem@)),
        files.contains((joined(state_dir(env), "remote-key.pem"@), creds.key_pem@)),
        files.contains((joined(state_dir(env), "remote-token"@), creds.token@)),
{
    reveal_strlit("remote-cert.pem");
    reveal_strlit("remote-key.pem");
    reveal_strlit("remote-token");
    let dir = state_dir(env);
    assert(files[0].0.len() != files[1].0.len() && files[0].0.len() != files[2].0.len()
        && files[1].0.len() != files[2].0.len());
    assert(files.contains(files[0]) && files.contains(files[1]) && files.contains(files[2]));
}

/// A TLS server has all the certificates that were found, in their order, and the key; there is none where
/// one of the certificates is broken, or the key is or is not there.
pub proof fn law_a_server_has_all_its_certificates(
    certs: Seq<Result<Seq<u8>, Seq<char>>>,
    key: Result<Option<Seq<u8>>, Seq<char>>,
    r: Result<(Vec<Vec<u8>>, Vec<u8>), String>,
    k: int,
)
    requires
        are_tls_parts(certs, key, r),
    ensures
        r is Ok <==> (forall|j: int| 0 <= j < certs.len() ==> (#[trigger] certs[j]) is Ok) && key is Ok
            && key->Ok_0 is Some,
        r is Ok && 0 <= k < certs.len() ==> k < r->Ok_0.0@.len() && certs[k]->Ok_0 == r->Ok_0.0@[k]@,
        r is Ok ==> r->Ok_0.0@.len() == certs.len() && (key->Ok_0)->0 == r->Ok_0.1@,
{
    lemma_first_wrong(certs, 0);
    if r is Ok && 0 <= k < certs.len() {
        let chain = r->Ok_0.0@;
        let shown = chain.map_values(|c: Vec<u8>| Ok::<Seq<u8>, Seq<char>>(c@));
        assert(shown.len() == chain.len());
        assert(shown[k] == certs[k]);
    }
}

proof fn lemma_first_wrong(certs: Seq<Result<Seq<u8>, Seq<char>>>, from: int)
    requires
        0 <= from,
    ensures
        first_wrong(certs, from) is None <==> forall|j: int|
            from <= j < certs.len() ==> (#[trigger] certs[j]) is Ok,
    decreases certs.len() - from,
{
    if from < certs.len() && certs[from] is Ok {
        lemma_first_wrong(certs, from + 1);
    }
}

/// Stored credentials show the first certificate of their file, whose fingerprint clients pin; a file without
/// one, or with a broken one before it, is refused. White space around the token does not count.
pub proof fn law_the_first_certificate_is_shown(
    cert_pem: Seq<char>,
    key_pem: Seq<char>,
    token: Seq<char>,
    r: Result<RemoteCreds, String>,
)
    requires
        is_loaded(cert_pem, key_pem, token, r),
    ensures
        r is Ok <==> pem_certs(cert_pem).len() > 0 && pem_certs(cert_pem)[0] is Ok,
        r matches Ok(c) ==> {
            &&& pem_certs(cert_pem)[0]->Ok_0 == c.cert_der@
            &&& c.cert_pem@ == cert_pem
            &&& c.key_pem@ == key_pem
            &&& c.token@ == trimmed(token)
        },
{
}

} // verus!
