//! The certificate and the key of a core that listens beyond loopback.
//!
//! Self-signed certificates are expected and fine here: there is no browser and no public name to
//! validate. Every failure names the file and what was wrong with it, because on a deploy this
//! string is the only diagnostic that anyone will see.

use vstd::prelude::*;

verus! {

/// How a private key is encoded. Which one a tool emits is not something an operator chooses on
/// purpose, so all of them are taken.
#[derive(Clone, Copy, Debug, PartialEq, Eq, Structural)]
pub enum KeyFormat {
    Pkcs1,
    Sec1,
    Pkcs8,
}

/// A private key as it was found.
#[derive(Debug)]
pub struct PrivateKey {
    pub format: KeyFormat,
    pub der: Vec<u8>,
}

impl PrivateKey {
    pub open spec fn found(self) -> (KeyFormat, Seq<u8>) {
        (self.format, self.der@)
    }
}

/// The certificates in the order of a file, or what is wrong with the first that cannot be read.
pub open spec fn certs_read(r: Result<Vec<Vec<u8>>, String>) -> Result<Seq<Seq<u8>>, Seq<char>> {
    match r {
        Ok(certs) => Ok(certs@.map_values(|der: Vec<u8>| der@)),
        Err(why) => Err(why@),
    }
}

/// The key of a file, if there is one, or what is wrong with it.
pub open spec fn key_read(r: Result<Option<PrivateKey>, String>) -> Result<
    Option<(KeyFormat, Seq<u8>)>,
    Seq<char>,
> {
    match r {
        Ok(Some(key)) => Ok(Some(key.found())),
        Ok(None) => Ok(None),
        Err(why) => Err(why@),
    }
}

/// The certificates that a PEM file holds.
pub uninterp spec fn pem_certs(pem: Seq<u8>) -> Result<Seq<Seq<u8>>, Seq<char>>;

/// The first private key that a PEM file holds.
pub uninterp spec fn pem_private_key(pem: Seq<u8>) -> Result<
    Option<(KeyFormat, Seq<u8>)>,
    Seq<char>,
>;

/// Calls `rustls_pemfile::certs` and collects what it yields, up to the first error.
///
/// Claimed: the outcome depends on the bytes of the file alone. Which sections count as
/// certificates, and how they are decoded, is left to the name.
#[verifier::external_body]
fn outside_certs(pem: &[u8]) -> (r: Result<Vec<Vec<u8>>, String>)
    ensures
        certs_read(r) == pem_certs(pem@),
{
    let mut rest: &[u8] = pem;
    rustls_pemfile::certs(&mut rest)
        .map(|cert| cert.map(|der| der.to_vec()).map_err(|e| e.to_string()))
        .collect()
}

/// Calls `rustls_pemfile::private_key`.
///
/// Claimed: the outcome depends on the bytes of the file alone. Which section is taken for a key,
/// and how it is decoded, is left to the name. That function hands out keys of three formats only.
#[verifier::external_body]
fn outside_private_key(pem: &[u8]) -> (r: Result<Option<PrivateKey>, String>)
    ensures
        key_read(r) == pem_private_key(pem@),
{
    let mut rest: &[u8] = pem;
    let key = rustls_pemfile::private_key(&mut rest).map_err(|e| e.to_string())?;
    Ok(key.map(|key| PrivateKey {
        format: match key {
            tokio_rustls::rustls::pki_types::PrivateKeyDer::Pkcs1(_) => KeyFormat::Pkcs1,
            tokio_rustls::rustls::pki_types::PrivateKeyDer::Sec1(_) => KeyFormat::Sec1,
            _ => KeyFormat::Pkcs8,
        },
        der: key.secret_der().to_vec(),
    }))
}

/// What comes of the certificate file at a path, once it has been parsed.
pub open spec fn certs_of(
    path: Seq<char>,
    parsed: Result<Seq<Seq<u8>>, Seq<char>>,
) -> Result<Seq<Seq<u8>>, Seq<char>> {
    match parsed {
        Err(why) => Err("certificate "@ + path + " is not valid PEM: "@ + why),
        Ok(certs) => if certs.len() == 0 {
            Err(
                "certificate "@ + path
                    + " contains no CERTIFICATE block — a key file passed as the certificate looks exactly like this"@,
            )
        } else {
            Ok(certs)
        },
    }
}

/// What comes of the key file at a path, once it has been parsed.
pub open spec fn key_of(
    path: Seq<char>,
    parsed: Result<Option<(KeyFormat, Seq<u8>)>, Seq<char>>,
) -> Result<(KeyFormat, Seq<u8>), Seq<char>> {
    match parsed {
        Err(why) => Err("private key "@ + path + " is not valid PEM: "@ + why),
        Ok(None) => Err(
            "private key "@ + path
                + " contains no PRIVATE KEY block — if this is the certificate, the two paths are swapped"@,
        ),
        Ok(Some(key)) => Ok(key),
    }
}

/// The key that was found, or why there is none.
pub open spec fn key_outcome(r: Result<PrivateKey, String>) -> Result<
    (KeyFormat, Seq<u8>),
    Seq<char>,
> {
    match r {
        Ok(key) => Ok(key.found()),
        Err(why) => Err(why@),
    }
}

fn three(first: &str, second: &str, third: &str) -> (r: String)
    ensures
        r@ == first@ + second@ + third@,
{
    let mut r = first.to_owned();
    r.append(second);
    r.append(third);
    r
}

fn explained(what: &str, path: &str, trouble: &str, why: &str) -> (r: String)
    ensures
        r@ == what@ + path@ + trouble@ + why@,
{
    let mut r = three(what, path, trouble);
    r.append(why);
    r
}

/// The certificates of a file that has been parsed. A file without any is refused.
pub fn certs_from(path: &str, parsed: Result<Vec<Vec<u8>>, String>) -> (r: Result<
    Vec<Vec<u8>>,
    String,
>)
    ensures
        certs_read(r) == certs_of(path@, certs_read(parsed)),
{
    match parsed {
        Err(why) => Err(explained("certificate ", path, " is not valid PEM: ", why.as_str())),
        Ok(certs) => {
            if certs.len() == 0 {
                Err(
                    three(
                        "certificate ",
                        path,
                        " contains no CERTIFICATE block — a key file passed as the certificate looks exactly like this",
                    ),
                )
            } else {
                Ok(certs)
            }
        },
    }
}

/// The key of a file that has been parsed. A file without one is refused.
pub fn key_from(path: &str, parsed: Result<Option<PrivateKey>, String>) -> (r: Result<
    PrivateKey,
    String,
>)
    ensures
        key_outcome(r) == key_of(path@, key_read(parsed)),
{
    match parsed {
        Err(why) => Err(explained("private key ", path, " is not valid PEM: ", why.as_str())),
        Ok(Some(key)) => Ok(key),
        Ok(None) => Err(
            three(
                "private key ",
                path,
                " contains no PRIVATE KEY block — if this is the certificate, the two paths are swapped",
            ),
        ),
    }
}

/// The certificates of the file at a path, given its bytes or why they could not be read.
pub fn load_certs(path: &str, file: Result<Vec<u8>, String>) -> (r: Result<Vec<Vec<u8>>, String>)
    ensures
        certs_read(r) == match file {
            Err(why) => Err("cannot read certificate "@ + path@ + ": "@ + why@),
            Ok(pem) => certs_of(path@, pem_certs(pem@)),
        },
{
    match file {
        Err(why) => Err(explained("cannot read certificate ", path, ": ", why.as_str())),
        Ok(pem) => certs_from(path, outside_certs(pem.as_slice())),
    }
}

/// The key of the file at a path, given its bytes or why they could not be read.
pub fn load_key(path: &str, file: Result<Vec<u8>, String>) -> (r: Result<PrivateKey, String>)
    ensures
        key_outcome(r) == match file {
            Err(why) => Err("cannot read private key "@ + path@ + ": "@ + why@),
            Ok(pem) => key_of(path@, pem_private_key(pem@)),
        },
{
    match file {
        Err(why) => Err(explained("cannot read private key ", path, ": ", why.as_str())),
        Ok(pem) => key_from(path, outside_private_key(pem.as_slice())),
    }
}

/// What is said of a certificate and a key that do not belong together.
pub fn unusable_pair(cert_path: &str, key_path: &str, why: &str) -> (r: String)
    ensures
        r@ == "certificate "@ + cert_path@ + " and key "@ + key_path@
            + " do not form a usable pair: "@ + why@,
{
    let mut r = explained("certificate ", cert_path, " and key ", key_path);
    r.append(" do not form a usable pair: ");
    r.append(why);
    r
}

/// Whether a text names another.
pub open spec fn names(text: Seq<char>, part: Seq<char>) -> bool {
    exists|i: int|
        0 <= i <= text.len() - part.len() && #[trigger] text.subrange(i, i + part.len()) == part
}

/// Whatever is wrong with a certificate or a key file, its path is in what is said of it.
pub proof fn a_failure_names_the_file(
    path: Seq<char>,
    certs: Result<Seq<Seq<u8>>, Seq<char>>,
    key: Result<Option<(KeyFormat, Seq<u8>)>, Seq<char>>,
)
    ensures
        certs_of(path, certs) matches Err(why) ==> names(why, path),
        key_of(path, key) matches Err(why) ==> names(why, path),
{
    if let Err(why) = certs_of(path, certs) {
        let i = "certificate "@.len() as int;
        assert(why.subrange(i, i + path.len()) =~= path);
    }
    if let Err(why) = key_of(path, key) {
        let i = "private key "@.len() as int;
        assert(why.subrange(i, i + path.len()) =~= path);
    }
}

/// A key is taken exactly where the file has one, and as it is found; what was wrong with a file that
/// could not be parsed is part of what is said.
pub proof fn a_key_is_taken_as_it_is_found(
    path: Seq<char>,
    certs: Result<Seq<Seq<u8>>, Seq<char>>,
    parsed: Result<Option<(KeyFormat, Seq<u8>)>, Seq<char>>,
)
    ensures
        key_of(path, parsed) is Ok <==> (parsed is Ok && parsed->Ok_0 is Some),
        key_of(path, parsed) matches Ok(key) ==> parsed == Ok::<
            Option<(KeyFormat, Seq<u8>)>,
            Seq<char>,
        >(Some(key)),
        parsed is Err ==> names(key_of(path, parsed)->Err_0, parsed->Err_0),
        certs is Err ==> names(certs_of(path, certs)->Err_0, certs->Err_0),
{
    if parsed is Err {
        let why = parsed->Err_0;
        let said = key_of(path, parsed)->Err_0;
        let i = said.len() - why.len();
        assert(said.subrange(i, i + why.len()) =~= why);
    }
    if certs is Err {
        let why = certs->Err_0;
        let said = certs_of(path, certs)->Err_0;
        let i = said.len() - why.len();
        assert(said.subrange(i, i + why.len()) =~= why);
    }
}

/// Nothing is accepted as an empty list: where certificates come back, there is one.
pub proof fn no_certificate_is_no_success(
    path: Seq<char>,
    parsed: Result<Seq<Seq<u8>>, Seq<char>>,
)
    ensures
        certs_of(path, parsed) is Ok <==> (parsed is Ok && parsed->Ok_0.len() > 0),
        certs_of(path, parsed) matches Ok(certs) ==> parsed == Ok::<Seq<Seq<u8>>, Seq<char>>(certs),
{
}

} // verus!
