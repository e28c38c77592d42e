//! How `ssh-keygen` is called to make keys and signatures, and what is said of the keys.

use super::key::{fingerprint_in, pub_path};
use super::shared;
use crate::layout;
use crate::layout::push_line;
use crate::path;
use crate::path::{file_name, join, stem};
use crate::text;
use crate::text::{concat2, concat3, concat5};
use crate::words;
use vstd::prelude::*;
use vstd::string::*;

verus! {

/// The arguments that make a signing key of that name at a place.
pub fn keygen_list(name: &str, place: &str) -> (out: Vec<String>)
    ensures
        text::texts(out@) == seq![
            "-t"@,
            "ed25519"@,
            "-N"@,
            ""@,
            "-C"@,
            name@,
            "-f"@,
            place@,
            "-q"@,
        ],
{
    let mut out: Vec<String> = Vec::new();
    push_line(&mut out, "-t".to_owned());
    push_line(&mut out, "ed25519".to_owned());
    push_line(&mut out, "-N".to_owned());
    push_line(&mut out, "".to_owned());
    push_line(&mut out, "-C".to_owned());
    push_line(&mut out, name.to_owned());
    push_line(&mut out, "-f".to_owned());
    push_line(&mut out, place.to_owned());
    push_line(&mut out, "-q".to_owned());
    assert(text::texts(out@) =~= seq![
        "-t"@,
        "ed25519"@,
        "-N"@,
        ""@,
        "-C"@,
        name@,
        "-f"@,
        place@,
        "-q"@,
    ]);
    out
}

/// The mode of a directory of keys: the host's is read by everyone, a user's by nobody else.
pub fn key_dir_mode(host: bool) -> (r: u32)
    ensures
        r == if host {
            0o755int
        } else {
            0o700
        },
{
    if host {
        0o755
    } else {
        0o700
    }
}

/// The arguments that sign a message for a namespace.
pub fn sign_command(namespace: &str, key: &str, message: &str) -> (out: Vec<String>)
    ensures
        text::texts(out@) == seq![
            "-Y"@,
            "sign"@,
            "-q"@,
            "-n"@,
            namespace@,
            "-f"@,
            key@,
            message@,
        ],
{
    let mut out: Vec<String> = Vec::new();
    push_line(&mut out, "-Y".to_owned());
    push_line(&mut out, "sign".to_owned());
    push_line(&mut out, "-q".to_owned());
    push_line(&mut out, "-n".to_owned());
    push_line(&mut out, namespace.to_owned());
    push_line(&mut out, "-f".to_owned());
    push_line(&mut out, key.to_owned());
    push_line(&mut out, message.to_owned());
    assert(text::texts(out@) =~= seq![
        "-Y"@,
        "sign"@,
        "-q"@,
        "-n"@,
        namespace@,
        "-f"@,
        key@,
        message@,
    ]);
    out
}

/// The fingerprint of a key, from what `ssh-keygen` printed where it ran.
pub fn fingerprint_text(printed: Option<&str>) -> (r: String)
    ensures
        r@ == match printed {
            Some(p) => if words::words(p@).len() >= 2 {
                words::words(p@)[1]
            } else {
                "(fingerprint unavailable)"@
            },
            None => "(fingerprint unavailable)"@,
        },
{
    match printed {
        Some(p) => match fingerprint_in(p) {
            Some(f) => f,
            None => "(fingerprint unavailable)".to_owned(),
        },
        None => "(fingerprint unavailable)".to_owned(),
    }
}

// ---- keys of a policy ----------------------------------------------------------

/// A key that a policy's SSH grant is given.
#[derive(Debug)]
pub struct SshKey {
    /// The file of its private half.
    pub key: String,
    /// The file of its public half.
    pub public: String,
    /// The arguments that mint it; nothing where it is there.
    pub mint: Option<Vec<String>>,
}

/// The arguments that mint the key of a grant.
pub open spec fn mint_text(dest: Seq<char>, place: Seq<char>) -> Seq<Seq<char>> {
    seq![
        "-q"@,
        "-t"@,
        "ed25519"@,
        "-N"@,
        ""@,
        "-C"@,
        "kennel-ssh "@ + dest,
        "-f"@,
        place,
    ]
}

fn mint_list(dest: &str, place: &str) -> (out: Vec<String>)
    ensures
        text::texts(out@) == mint_text(dest@, place@),
{
    let mut out: Vec<String> = Vec::new();
    push_line(&mut out, "-q".to_owned());
    push_line(&mut out, "-t".to_owned());
    push_line(&mut out, "ed25519".to_owned());
    push_line(&mut out, "-N".to_owned());
    push_line(&mut out, "".to_owned());
    push_line(&mut out, "-C".to_owned());
    push_line(&mut out, concat2("kennel-ssh ", dest));
    push_line(&mut out, "-f".to_owned());
    push_line(&mut out, place.to_owned());
    assert(text::texts(out@) =~= mint_text(dest@, place@));
    out
}

/// The key of the grant to a destination, in the policy's directory of keys: one whose halves are
/// both there is kept, so that a policy that is compiled again keeps its keys, and otherwise it is
/// minted.
pub fn ssh_key<F: Fn(&str) -> bool>(dir: &str, key_id: &str, dest: &str, is_there: &F) -> (r: SshKey)
    requires
        forall|s: &str| call_requires(*is_there, (s,)),
    ensures
        r.key@ == path::joined(dir@, key_id@),
        r.public@ == path::joined(dir@, key_id@ + ".pub"@),
        match r.mint {
            Some(args) => text::texts(args@) == mint_text(dest@, r.key@) && (shared::says(
                *is_there,
                r.key@,
                false,
            ) || shared::says(*is_there, r.public@, false)),
            None => shared::says(*is_there, r.key@, true) && shared::says(
                *is_there,
                r.public@,
                true,
            ),
        },
{
    let place = join(dir, key_id);
    let public = pub_path(dir, key_id);
    let key_there = is_there(place.as_str());
    assert(shared::says(*is_there, place@, key_there));
    let public_there = is_there(public.as_str());
    assert(shared::says(*is_there, public@, public_there));
    let mint = if key_there && public_there {
        None
    } else {
        Some(mint_list(dest, place.as_str()))
    };
    SshKey { key: place, public, mint }
}

/// The public half as it is pinned in a policy: what its file holds, without the white space around.
pub fn pinned_half(content: &str) -> (r: String)
    ensures
        r@ == words::trim(content@),
{
    words::trimmed(content).to_owned()
}

// ---- what is said of trust -----------------------------------------------------

/// What is said of a key that is trusted from now on.
pub fn trusted_text(dest: &str) -> (r: String)
    ensures
        r@ == "trusted `"@ + (match path::file_name_of(dest@) {
            Some(f) => path::stem_of(f),
            None => ""@,
        }) + "` at the host tier ("@ + dest@
            + ") — artefacts it signs now verify for every user on this host"@,
{
    let name = match file_name(dest) {
        Some(f) => stem(f.as_str()),
        None => "".to_owned(),
    };
    concat5(
        "trusted `",
        name.as_str(),
        "` at the host tier (",
        dest,
        ") — artefacts it signs now verify for every user on this host",
    )
}

/// What is said of a key whose trust was withdrawn, given whether its private half is in the store.
pub fn untrusted_lines(name: &str, dir: &str, private_there: bool) -> (out: Vec<String>)
    ensures
        text::texts(out@) == seq![
            "untrusted `"@ + name@ + "` ("@ + path::joined(dir@, name@ + ".pub"@) + " removed)"@,
        ] + layout::line_if(
            private_there,
            "note: the private half remains at "@ + path::joined(dir@, name@)
                + " — its location confers no authority, but remove it if the key is retired for good"@,
        ),
{
    let mut out: Vec<String> = Vec::new();
    let place = pub_path(dir, name);
    push_line(
        &mut out,
        concat5("untrusted `", name, "` (", place.as_str(), " removed)"),
    );
    if private_there {
        push_line(
            &mut out,
            concat3(
                "note: the private half remains at ",
                join(dir, name).as_str(),
                " — its location confers no authority, but remove it if the key is retired for good",
            ),
        );
    }
    assert(text::texts(out@) =~= seq![
        "untrusted `"@ + name@ + "` ("@ + path::joined(dir@, name@ + ".pub"@) + " removed)"@,
    ] + layout::line_if(
        private_there,
        "note: the private half remains at "@ + path::joined(dir@, name@)
            + " — its location confers no authority, but remove it if the key is retired for good"@,
    ));
    out
}

// ---- what holds of the whole ----------------------------------------------------

/// Whether a word of a command line is followed by another.
pub open spec fn followed(list: Seq<Seq<char>>, a: Seq<char>, b: Seq<char>) -> bool {
    exists|k: int| 0 <= k < list.len() - 1 && #[trigger] list[k] == a && list[k + 1] == b
}

/// A key is made for signing here, at its place and under its name, without a passphrase.
pub proof fn law_key_is_made_at_its_place(name: &str, place: &str, out: Vec<String>)
    requires
        call_ensures(keygen_list, (name, place), out),
    ensures
        followed(text::texts(out@), "-t"@, "ed25519"@),
        followed(text::texts(out@), "-f"@, place@),
        followed(text::texts(out@), "-C"@, name@),
        followed(text::texts(out@), "-N"@, ""@),
{
    let l = text::texts(out@);
    assert(l[0] == "-t"@ && l[1] == "ed25519"@);
    assert(l[2] == "-N"@ && l[3] == ""@);
    assert(l[4] == "-C"@ && l[5] == name@);
    assert(l[6] == "-f"@ && l[7] == place@);
}

/// A message is signed with its key, in its namespace.
pub proof fn law_message_is_signed_with_its_key(
    namespace: &str,
    key: &str,
    message: &str,
    out: Vec<String>,
)
    requires
        call_ensures(sign_command, (namespace, key, message), out),
    ensures
        followed(text::texts(out@), "-Y"@, "sign"@),
        followed(text::texts(out@), "-n"@, namespace@),
        followed(text::texts(out@), "-f"@, key@),
        text::texts(out@).last() == message@,
{
    let l = text::texts(out@);
    assert(l[0] == "-Y"@ && l[1] == "sign"@);
    assert(l[3] == "-n"@ && l[4] == namespace@);
    assert(l[5] == "-f"@ && l[6] == key@);
}

/// Nobody but the user gets into the user's key directory, and nobody but root writes into the host's.
pub proof fn law_key_directories_are_closed(host: bool, r: u32)
    requires
        call_ensures(key_dir_mode, (host,), r),
    ensures
        !host ==> r % 64 == 0,
        (r / 8) % 8 & 2 == 0,
        r % 8 & 2 == 0,
        r / 64 == 7,
{
    assert(0o755u32 % 8 & 2 == 0) by (bit_vector);
    assert((0o755u32 / 8) % 8 & 2 == 0) by (bit_vector);
    assert(0o700u32 % 8 & 2 == 0) by (bit_vector);
    assert((0o700u32 / 8) % 8 & 2 == 0) by (bit_vector);
}

/// A pair is made just where a half is missing, at its own place.
pub proof fn law_missing_pairs_are_made<F: Fn(&str) -> bool>(
    dir: &str,
    key_id: &str,
    dest: &str,
    is_there: &F,
    r: SshKey,
)
    requires
        call_ensures(ssh_key::<F>, (dir, key_id, dest, is_there), r),
    ensures
        r.mint is None ==> shared::says(*is_there, r.key@, true) && shared::says(
            *is_there,
            r.public@,
            true,
        ),
        r.mint is Some ==> shared::says(*is_there, r.key@, false) || shared::says(
            *is_there,
            r.public@,
            false,
        ),
        r.mint matches Some(l) ==> followed(text::texts(l@), "-f"@, r.key@),
        r.key@ == path::joined(dir@, key_id@),
        r.public@ == path::joined(dir@, key_id@ + ".pub"@),
{
    if let Some(l) = r.mint {
        let t = text::texts(l@);
        assert(t[7] == "-f"@ && t[8] == r.key@);
    }
}

} // verus!
