//! The facilitator's own key, which signs acknowledgements.
//!
//! The key is made on first boot and found again by a marker file, which holds the commitment to
//! its public half.

use vstd::prelude::*;

use crate::adn;
use crate::codec;
use crate::error;
use crate::error::FacilitatorError;
use crate::falcon;
use crate::falcon::FalconKey;
use crate::text;
use crate::word;
use crate::word::Word;

verus! {

/// The facilitator's key: its commitment, and the secret half as the key store gave it.
pub struct FacilitatorKey {
    inner: Result<FalconKey, String>,
    commitment: Word,
}

/// What a [`FacilitatorKey`] holds.
#[verifier::ext_equal]
pub struct Keys {
    pub secret: Result<Seq<u8>, Seq<char>>,
    pub commitment: Seq<u64>,
}

/// The bytes of a key, or what the key store said.
pub open spec fn stored(secret: Result<FalconKey, String>) -> Result<Seq<u8>, Seq<char>> {
    match secret {
        Ok(k) => Ok(k@),
        Err(e) => Err(e@),
    }
}

impl View for FacilitatorKey {
    type V = Keys;

    closed spec fn view(&self) -> Keys {
        Keys { secret: stored(self.inner), commitment: self.commitment@ }
    }
}

/// The refusal when the key store has no key to sign with.
pub open spec fn no_key(e: Seq<char>) -> error::Refusal {
    error::Refusal::Internal("sign: "@ + e)
}

/// The refusal when the signature came out too long for its encoding.
pub open spec fn too_long() -> error::Refusal {
    error::Refusal::Internal("sign: the signature does not fit its encoding"@)
}

/// The text of the signature that has this polynomial.
pub open spec fn signature_text(secret: Seq<u8>, poly: Seq<i16>) -> Seq<char> {
    "0x"@ + codec::hex_of(falcon::encoded(secret, poly))
}

/// What a polynomial gives: the text of the signature that has it, or a refusal where there is no
/// key to sign with, or no room.
pub open spec fn signature_of(k: Keys, poly: Seq<i16>) -> Result<Seq<char>, error::Refusal> {
    match k.secret {
        Err(e) => Err(no_key(e)),
        Ok(secret) => if falcon::fits(poly) {
            Ok(signature_text(secret, poly))
        } else {
            Err(too_long())
        },
    }
}

/// What holds of the text of a signature of `msg`: it is that of a signature that the secret key
/// can give, and decodes to a signature under the public half of the key.
pub open spec fn is_signature(s: Seq<char>, secret: Seq<u8>, msg: Seq<u64>) -> bool {
    &&& exists|poly: Seq<i16>| #[trigger]
        falcon::gives(secret, msg, poly) && falcon::fits(poly) && s == signature_text(secret, poly)
    &&& adn::decoded(s) is Ok
    &&& falcon::signer(adn::decoded(s)->Ok_0) is Ok
    &&& falcon::signer(adn::decoded(s)->Ok_0)->Ok_0 == falcon::key_commitment(secret)
}

/// What signing `msg` can come to: the text of a signature, or a refusal where there is no key,
/// or where the signature came out too long.
pub open spec fn signing_gives(
    k: Keys,
    msg: Seq<u64>,
    outcome: Result<Seq<char>, error::Refusal>,
) -> bool {
    match k.secret {
        Err(e) => outcome == Err::<Seq<char>, error::Refusal>(no_key(e)),
        Ok(secret) => match outcome {
            Ok(s) => is_signature(s, secret, msg),
            Err(e) => e == too_long() && exists|poly: Seq<i16>| #[trigger]
                falcon::gives(secret, msg, poly) && !falcon::fits(poly),
        },
    }
}

/// A text or a refusal, as a value of the specification.
pub open spec fn signing_outcome(r: Result<String, FacilitatorError>) -> Result<
    Seq<char>,
    error::Refusal,
> {
    match r {
        Ok(s) => Ok(s@),
        Err(e) => Err(e@),
    }
}

/// The secret half that a commitment is kept with: what the key store gave, unless that is a key
/// with another commitment.
pub open spec fn matching(secret: Result<Seq<u8>, Seq<char>>, commitment: Seq<u64>) -> Result<
    Seq<u8>,
    Seq<char>,
> {
    match secret {
        Ok(k) => if falcon::key_commitment(k) == commitment {
            Ok(k)
        } else {
            Err("the stored key has another commitment"@)
        },
        Err(e) => Err(e),
    }
}

/// What a boot does next.
pub enum BootStep {
    /// Create the directory of the key store.
    CreateDir,
    /// Open the key store.
    OpenStore,
    /// Look whether the marker is there.
    FindMarker,
    /// Read the marker.
    ReadMarker,
    /// Generate a key, store it, and report its commitment.
    GenerateKey,
    /// Write this text to the marker.
    WriteMarker { commitment: Word, text: String },
    /// Fetch the secret key with this commitment.
    LoadKey { commitment: Word },
    /// Nothing: the key is there.
    Done(FacilitatorKey),
    /// Nothing: the boot failed.
    Failed(FacilitatorError),
}

/// What came of a step, with what was said where it failed.
pub enum BootEvent {
    DirCreated(Result<(), String>),
    StoreOpened(Result<(), String>),
    MarkerFound(bool),
    MarkerRead(Result<String, String>),
    KeyGenerated(Result<Word, String>),
    MarkerWritten(Result<(), String>),
    KeyLoaded(Result<FalconKey, String>),
}

/// A [`BootStep`] as a value of the specification.
pub enum Boot {
    CreateDir,
    OpenStore,
    FindMarker,
    ReadMarker,
    GenerateKey,
    WriteMarker { commitment: Seq<u64>, text: Seq<char> },
    LoadKey { commitment: Seq<u64> },
    Done(Keys),
    Failed(error::Refusal),
}

/// A [`BootEvent`] as a value of the specification.
pub enum News {
    DirCreated(Result<(), Seq<char>>),
    StoreOpened(Result<(), Seq<char>>),
    MarkerFound(bool),
    MarkerRead(Result<Seq<char>, Seq<char>>),
    KeyGenerated(Result<Seq<u64>, Seq<char>>),
    MarkerWritten(Result<(), Seq<char>>),
    KeyLoaded(Result<Seq<u8>, Seq<char>>),
}

impl View for BootStep {
    type V = Boot;

    open spec fn view(&self) -> Boot {
        match *self {
            BootStep::CreateDir => Boot::CreateDir,
            BootStep::OpenStore => Boot::OpenStore,
            BootStep::FindMarker => Boot::FindMarker,
            BootStep::ReadMarker => Boot::ReadMarker,
            BootStep::GenerateKey => Boot::GenerateKey,
            BootStep::WriteMarker { commitment, text } => Boot::WriteMarker {
                commitment: commitment@,
                text: text@,
            },
            BootStep::LoadKey { commitment } => Boot::LoadKey { commitment: commitment@ },
            BootStep::Done(k) => Boot::Done(k@),
            BootStep::Failed(e) => Boot::Failed(e@),
        }
    }
}

/// An outcome with its text as a sequence.
pub open spec fn outcome(r: Result<(), String>) -> Result<(), Seq<char>> {
    match r {
        Ok(u) => Ok(u),
        Err(e) => Err(e@),
    }
}

impl View for BootEvent {
    type V = News;

    open spec fn view(&self) -> News {
        match *self {
            BootEvent::DirCreated(r) => News::DirCreated(outcome(r)),
            BootEvent::StoreOpened(r) => News::StoreOpened(outcome(r)),
            BootEvent::MarkerFound(b) => News::MarkerFound(b),
            BootEvent::MarkerRead(Ok(t)) => News::MarkerRead(Ok(t@)),
            BootEvent::MarkerRead(Err(e)) => News::MarkerRead(Err(e@)),
            BootEvent::KeyGenerated(Ok(w)) => News::KeyGenerated(Ok(w@)),
            BootEvent::KeyGenerated(Err(e)) => News::KeyGenerated(Err(e@)),
            BootEvent::MarkerWritten(r) => News::MarkerWritten(outcome(r)),
            BootEvent::KeyLoaded(r) => News::KeyLoaded(stored(r)),
        }
    }
}

/// What a boot does after a step, given what came of it. News of another step changes nothing.
pub open spec fn boot_next(step: Boot, news: News) -> Boot {
    match (step, news) {
        (Boot::CreateDir, News::DirCreated(Ok(_))) => Boot::OpenStore,
        (Boot::CreateDir, News::DirCreated(Err(e))) => boot_failed("keystore mkdir: "@, e),
        (Boot::OpenStore, News::StoreOpened(Ok(_))) => Boot::FindMarker,
        (Boot::OpenStore, News::StoreOpened(Err(e))) => boot_failed("keystore: "@, e),
        (Boot::FindMarker, News::MarkerFound(true)) => Boot::ReadMarker,
        (Boot::FindMarker, News::MarkerFound(false)) => Boot::GenerateKey,
        (Boot::ReadMarker, News::MarkerRead(Ok(t))) => match word::parsed_word(text::trim(t)) {
            Ok(commitment) => Boot::LoadKey { commitment },
            Err(e) => Boot::Failed(e),
        },
        (Boot::ReadMarker, News::MarkerRead(Err(e))) => boot_failed("read marker: "@, e),
        (Boot::GenerateKey, News::KeyGenerated(Ok(commitment))) => Boot::WriteMarker {
            commitment,
            text: word::word_hex(commitment),
        },
        (Boot::GenerateKey, News::KeyGenerated(Err(e))) => boot_failed("keygen: "@, e),
        (Boot::WriteMarker { commitment, text }, News::MarkerWritten(Ok(_))) => Boot::LoadKey {
            commitment,
        },
        (Boot::WriteMarker { commitment, text }, News::MarkerWritten(Err(e))) => boot_failed(
            "write marker: "@,
            e,
        ),
        (Boot::LoadKey { commitment }, News::KeyLoaded(secret)) => Boot::Done(
            Keys { secret: matching(secret, commitment), commitment },
        ),
        _ => step,
    }
}

/// A boot that failed, with what was doing and what was said.
pub open spec fn boot_failed(doing: Seq<char>, e: Seq<char>) -> Boot {
    Boot::Failed(error::Refusal::Internal(doing + e))
}

fn failed(doing: &str, e: String) -> (r: BootStep)
    ensures
        r@ == boot_failed(doing@, e@),
{
    BootStep::Failed(FacilitatorError::Internal(text::join(doing, e.as_str())))
}

impl FacilitatorKey {
    #[verifier::type_invariant]
    spec fn inv(self) -> bool {
        self.inner is Ok ==> falcon::key_commitment(self.inner->Ok_0@) == self.commitment@
    }

    fn kept(inner: Result<FalconKey, String>, commitment: Word) -> (r: Self)
        ensures
            r@ == (Keys { secret: matching(stored(inner), commitment@), commitment: commitment@ }),
    {
        match inner {
            Ok(k) => {
                let found = k.commitment();
                if word::same(&found, &commitment) {
                    FacilitatorKey { inner: Ok(k), commitment }
                } else {
                    FacilitatorKey {
                        inner: Err("the stored key has another commitment".to_owned()),
                        commitment,
                    }
                }
            },
            Err(e) => FacilitatorKey { inner: Err(e), commitment },
        }
    }

    /// Decides what the boot that loads or creates the key does next, given what came of `step`.
    /// A boot starts with [`BootStep::CreateDir`]. Where the marker is there, the key it names is
    /// used again; otherwise a fresh key is made and the marker written. A key that cannot be
    /// fetched fails the signing, not the boot.
    pub fn load_or_create(step: BootStep, event: BootEvent) -> (r: BootStep)
        ensures
            r@ == boot_next(step@, event@),
    {
        match (step, event) {
            (BootStep::CreateDir, BootEvent::DirCreated(Ok(_))) => BootStep::OpenStore,
            (BootStep::CreateDir, BootEvent::DirCreated(Err(e))) => failed("keystore mkdir: ", e),
            (BootStep::OpenStore, BootEvent::StoreOpened(Ok(_))) => BootStep::FindMarker,
            (BootStep::OpenStore, BootEvent::StoreOpened(Err(e))) => failed("keystore: ", e),
            (BootStep::FindMarker, BootEvent::MarkerFound(true)) => BootStep::ReadMarker,
            (BootStep::FindMarker, BootEvent::MarkerFound(false)) => BootStep::GenerateKey,
            (BootStep::ReadMarker, BootEvent::MarkerRead(Ok(t))) => match word::parse_word_hex(
                text::trim_text(t.as_str()),
            ) {
                Ok(commitment) => BootStep::LoadKey { commitment },
                Err(e) => BootStep::Failed(e),
            },
            (BootStep::ReadMarker, BootEvent::MarkerRead(Err(e))) => failed("read marker: ", e),
            (BootStep::GenerateKey, BootEvent::KeyGenerated(Ok(commitment))) => {
                BootStep::WriteMarker { commitment, text: word::word_to_hex(commitment) }
            },
            (BootStep::GenerateKey, BootEvent::KeyGenerated(Err(e))) => failed("keygen: ", e),
            (BootStep::WriteMarker { commitment, text }, BootEvent::MarkerWritten(Ok(_))) => {
                BootStep::LoadKey { commitment }
            },
            (BootStep::WriteMarker { commitment, text }, BootEvent::MarkerWritten(Err(e))) => {
                failed("write marker: ", e)
            },
            (BootStep::LoadKey { commitment }, BootEvent::KeyLoaded(inner)) => BootStep::Done(
                FacilitatorKey::kept(inner, commitment),
            ),
            (step, _) => step,
        }
    }

    /// The text of the commitment to the key's public half.
    pub fn commitment_hex(&self) -> (r: String)
        ensures
            r@ == word::word_hex(self@.commitment),
    {
        word::word_to_hex(self.commitment)
    }

    /// The commitment to the key's public half.
    pub fn commitment_word(&self) -> (r: Word)
        ensures
            r@ == self@.commitment,
            self@.secret is Ok ==> falcon::key_commitment(self@.secret->Ok_0) == r@,
    {
        proof {
            use_type_invariant(self);
        }
        self.commitment
    }

    /// The text of the signature by this key that has this polynomial.
    pub fn signature_hex(&self, poly: &Vec<i16>) -> (r: Result<String, FacilitatorError>)
        requires
            falcon::valid_poly(poly@),
        ensures
            signing_outcome(r) == signature_of(self@, poly@),
            match r {
                Ok(s) => {
                    &&& adn::decoded(s@) is Ok
                    &&& falcon::signer(adn::decoded(s@)->Ok_0) is Ok
                    &&& falcon::signer(adn::decoded(s@)->Ok_0)->Ok_0 == self@.commitment
                },
                Err(_) => true,
            },
    {
        proof {
            use_type_invariant(self);
        }
        match &self.inner {
            Ok(k) => match k.encode(poly) {
                Some(sig) => {
                    proof {
                        adn::law_decode_round_trip(sig@);
                    }
                    Ok(text::join("0x", codec::hex_encode(sig.as_slice()).as_str()))
                },
                None => Err(
                    FacilitatorError::Internal(
                        "sign: the signature does not fit its encoding".to_owned(),
                    ),
                ),
            },
            Err(e) => Err(FacilitatorError::Internal(text::join("sign: ", e.as_str()))),
        }
    }

    /// Signs `msg` and returns the text of the signature.
    pub fn sign_word_hex(&self, msg: Word) -> (r: Result<String, FacilitatorError>)
        ensures
            signing_gives(self@, msg@, signing_outcome(r)),
    {
        proof {
            use_type_invariant(self);
        }
        match &self.inner {
            Ok(k) => {
                let poly = k.sign(msg);
                assert(falcon::gives(self@.secret->Ok_0, msg@, poly@));
                self.signature_hex(&poly)
            },
            Err(e) => Err(FacilitatorError::Internal(text::join("sign: ", e.as_str()))),
        }
    }

    /// Signs `msg` and returns the prepared form of the signature, as field elements.
    pub fn sign_prepared(&self, msg: Word) -> (r: Result<Vec<u64>, FacilitatorError>)
        ensures
            match r {
                Ok(v) => {
                    &&& self@.secret is Ok
                    &&& exists|poly: Seq<i16>| #[trigger]
                        falcon::gives(self@.secret->Ok_0, msg@, poly) && v@ == falcon::prepared(
                            self@.secret->Ok_0,
                            poly,
                            msg@,
                        )
                    &&& forall|i: int| 0 <= i < v@.len() ==> #[trigger] v@[i] < word::FELT_ORDER
                },
                Err(e) => self@.secret is Err && e@ == no_key(self@.secret->Err_0),
            },
    {
        match &self.inner {
            Ok(k) => {
                let poly = k.sign(msg);
                assert(falcon::gives(self@.secret->Ok_0, msg@, poly@));
                Ok(k.prepare(&poly, msg))
            },
            Err(e) => Err(FacilitatorError::Internal(text::join("sign: ", e.as_str()))),
        }
    }
}

/// The marker that a boot writes makes a later boot use the same commitment.
pub proof fn law_marker_names_the_key(commitment: Seq<u64>, secret: Result<Seq<u8>, Seq<char>>)
    requires
        word::canonical(commitment),
    ensures
        ({
            let written = boot_next(Boot::GenerateKey, News::KeyGenerated(Ok(commitment)));
            let read = News::MarkerRead(Ok(written->text));
            &&& written is WriteMarker
            &&& boot_next(Boot::ReadMarker, read) == (Boot::LoadKey { commitment })
            &&& boot_next(boot_next(Boot::ReadMarker, read), News::KeyLoaded(secret)) == boot_next(
                boot_next(written, News::MarkerWritten(Ok(()))),
                News::KeyLoaded(secret),
            )
        }),
{
    word::law_word_hex_round_trip(commitment);
    word::lemma_word_hex_trim(commitment);
}

/// A boot that found a marker never generates a key.
pub proof fn law_marker_keeps_the_key(news: News)
    ensures
        boot_next(Boot::FindMarker, News::MarkerFound(true)) == Boot::ReadMarker,
        !(boot_next(Boot::ReadMarker, news) is GenerateKey),
        !(boot_next(Boot::ReadMarker, news) is WriteMarker),
        forall|c: Seq<u64>|
            !(#[trigger] boot_next(Boot::LoadKey { commitment: c }, news) is GenerateKey),
{
}

/// A boot without a marker that meets no failure makes a key, writes its marker, and is done with
/// the commitment of that key.
pub proof fn law_first_boot_is_done(commitment: Seq<u64>, secret: Result<Seq<u8>, Seq<char>>)
    ensures
        ({
            let s1 = boot_next(Boot::CreateDir, News::DirCreated(Ok(())));
            let s2 = boot_next(s1, News::StoreOpened(Ok(())));
            let s3 = boot_next(s2, News::MarkerFound(false));
            let s4 = boot_next(s3, News::KeyGenerated(Ok(commitment)));
            let s5 = boot_next(s4, News::MarkerWritten(Ok(())));
            &&& s4 == (Boot::WriteMarker { commitment, text: word::word_hex(commitment) })
            &&& boot_next(s5, News::KeyLoaded(secret)) == Boot::Done(
                Keys { secret: matching(secret, commitment), commitment },
            )
        }),
{
}

/// The key of a later boot, which finds the marker of the first, signs under the commitment that
/// the first boot reported, whatever the key store gave.
pub proof fn law_later_boot_signs_under_the_first_commitment(
    commitment: Seq<u64>,
    secret: Result<Seq<u8>, Seq<char>>,
    msg: Seq<u64>,
    s: Seq<char>,
)
    requires
        word::canonical(commitment),
    ensures
        ({
            let marker = boot_next(Boot::GenerateKey, News::KeyGenerated(Ok(commitment)))->text;
            let read = boot_next(Boot::ReadMarker, News::MarkerRead(Ok(marker)));
            let done = boot_next(read, News::KeyLoaded(secret));
            &&& done is Done
            &&& done->Done_0.commitment == commitment
            &&& signing_gives(done->Done_0, msg, Ok(s)) ==> falcon::signer(
                adn::decoded(s)->Ok_0,
            )->Ok_0 == commitment
        }),
{
    law_marker_names_the_key(commitment, secret);
}

/// A polynomial that fits gives text behind `0x` that decodes to the bytes of its signature; one
/// that does not fit is refused, and without a key it is said what the key store said.
pub proof fn law_signature_of(k: Keys, poly: Seq<i16>)
    ensures
        k.secret matches Ok(secret) ==> {
            &&& falcon::fits(poly) ==> {
                let s = signature_of(k, poly)->Ok_0;
                &&& signature_of(k, poly) is Ok
                &&& s.len() == 2 + 2 * falcon::encoded(secret, poly).len()
                &&& s[0] == '0' && s[1] == 'x'
                &&& adn::decoded(s) is Ok
                &&& adn::decoded(s)->Ok_0 == falcon::encoded(secret, poly)
            }
            &&& !falcon::fits(poly) ==> signature_of(k, poly) is Err && signature_of(
                k,
                poly,
            )->Err_0 == error::Refusal::Internal("sign: the signature does not fit its encoding"@)
        },
        k.secret matches Err(e) ==> signature_of(k, poly) is Err && signature_of(k, poly)->Err_0
            == error::Refusal::Internal("sign: "@ + e),
{
    reveal_strlit("0x");
    if k.secret is Ok {
        let b = falcon::encoded(k.secret->Ok_0, poly);
        adn::law_decode_round_trip(b);
        codec::law_hex_of(b);
    }
}

/// What comes of signing is what a polynomial gives that the key can give for the message.
pub proof fn law_signing_gives(k: Keys, msg: Seq<u64>, outcome: Result<Seq<char>, error::Refusal>)
    requires
        signing_gives(k, msg, outcome),
    ensures
        k.secret matches Err(e) ==> outcome is Err && outcome->Err_0 == error::Refusal::Internal(
            "sign: "@ + e,
        ),
        k.secret matches Ok(secret) ==> exists|poly: Seq<i16>| #[trigger]
            falcon::gives(secret, msg, poly) && (match outcome {
                Ok(s) => falcon::fits(poly) && adn::decoded(s) is Ok && adn::decoded(s)->Ok_0
                    == falcon::encoded(secret, poly) && falcon::signer(
                    adn::decoded(s)->Ok_0,
                ) is Ok && falcon::signer(adn::decoded(s)->Ok_0)->Ok_0 == falcon::key_commitment(
                    secret,
                ),
                Err(e) => !falcon::fits(poly) && e == error::Refusal::Internal(
                    "sign: the signature does not fit its encoding"@,
                ),
            }),
{
    if k.secret is Ok {
        let secret = k.secret->Ok_0;
        match outcome {
            Ok(s) => {
                let poly = choose|poly: Seq<i16>| #[trigger]
                    falcon::gives(secret, msg, poly) && falcon::fits(poly) && s == signature_text(
                        secret,
                        poly,
                    );
                adn::law_decode_round_trip(falcon::encoded(secret, poly));
                assert(falcon::gives(secret, msg, poly));
            },
            Err(e) => {
                let poly = choose|poly: Seq<i16>| #[trigger]
                    falcon::gives(secret, msg, poly) && !falcon::fits(poly);
                assert(falcon::gives(secret, msg, poly));
            },
        }
    }
}

/// A stored key is kept where it has the commitment that it is looked up by, and no other is.
pub proof fn law_matching(secret: Result<Seq<u8>, Seq<char>>, commitment: Seq<u64>)
    ensures
        secret matches Ok(k) ==> (matching(secret, commitment) is Ok <==> falcon::key_commitment(k)
            == commitment),
        matching(secret, commitment) matches Ok(k) ==> secret is Ok && secret->Ok_0 == k,
        secret matches Err(e) ==> matching(secret, commitment) is Err && matching(
            secret,
            commitment,
        )->Err_0 == e,
{
}

/// Where a step of a boot fails, the boot fails, with the step and what was said.
pub proof fn law_boot_failures(e: Seq<char>, commitment: Seq<u64>, text: Seq<char>)
    ensures
        boot_next(Boot::CreateDir, News::DirCreated(Err(e))) == Boot::Failed(
            error::Refusal::Internal("keystore mkdir: "@ + e),
        ),
        boot_next(Boot::OpenStore, News::StoreOpened(Err(e))) == Boot::Failed(
            error::Refusal::Internal("keystore: "@ + e),
        ),
        boot_next(Boot::ReadMarker, News::MarkerRead(Err(e))) == Boot::Failed(
            error::Refusal::Internal("read marker: "@ + e),
        ),
        boot_next(Boot::GenerateKey, News::KeyGenerated(Err(e))) == Boot::Failed(
            error::Refusal::Internal("keygen: "@ + e),
        ),
        boot_next(Boot::WriteMarker { commitment, text }, News::MarkerWritten(Err(e)))
            == Boot::Failed(error::Refusal::Internal("write marker: "@ + e)),
{
}

/// A boot that finds a marker reads it, looks up the key that it names, white space around the
/// name or not, and is done with that commitment; a marker that names none fails the boot.
pub proof fn law_boot_with_a_marker(t: Seq<char>, secret: Result<Seq<u8>, Seq<char>>)
    ensures
        ({
            let s1 = boot_next(Boot::CreateDir, News::DirCreated(Ok(())));
            let s2 = boot_next(s1, News::StoreOpened(Ok(())));
            let s3 = boot_next(s2, News::MarkerFound(true));
            let s4 = boot_next(s3, News::MarkerRead(Ok(t)));
            let s5 = boot_next(s4, News::KeyLoaded(secret));
            match word::parsed_word(text::trim(t)) {
                Ok(commitment) => {
                    &&& s4 == (Boot::LoadKey { commitment })
                    &&& s5 is Done
                    &&& s5->Done_0.commitment == commitment
                    &&& s5->Done_0.secret == matching(secret, commitment)
                },
                Err(e) => s4 == Boot::Failed(e),
            }
        }),
{
}

/// News of another step changes nothing, and nothing follows the end of a boot.
pub proof fn law_boot_heeds_its_step(step: Boot, news: News)
    ensures
        !(match step {
            Boot::CreateDir => news is DirCreated,
            Boot::OpenStore => news is StoreOpened,
            Boot::FindMarker => news is MarkerFound,
            Boot::ReadMarker => news is MarkerRead,
            Boot::GenerateKey => news is KeyGenerated,
            Boot::WriteMarker { commitment, text } => news is MarkerWritten,
            Boot::LoadKey { commitment } => news is KeyLoaded,
            Boot::Done(_) => false,
            Boot::Failed(_) => false,
        }) ==> boot_next(step, news) == step,
{
}

/// What is said of steps and of news is said of what they carry.
pub proof fn law_boot_views(step: BootStep, event: BootEvent)
    ensures
        step is CreateDir <==> step@ is CreateDir,
        step is OpenStore <==> step@ is OpenStore,
        step is FindMarker <==> step@ is FindMarker,
        step is ReadMarker <==> step@ is ReadMarker,
        step is GenerateKey <==> step@ is GenerateKey,
        step matches BootStep::WriteMarker { commitment, text } ==> step@ == (Boot::WriteMarker {
            commitment: commitment@,
            text: text@,
        }),
        step matches BootStep::LoadKey { commitment } ==> step@ == (Boot::LoadKey {
            commitment: commitment@,
        }),
        step matches BootStep::Done(k) ==> step@ == Boot::Done(k@),
        step matches BootStep::Failed(e) ==> step@ == Boot::Failed(e@),
        event matches BootEvent::MarkerFound(b) ==> event@ == News::MarkerFound(b),
        event matches BootEvent::MarkerRead(Ok(t)) ==> event@ == News::MarkerRead(Ok(t@)),
        event matches BootEvent::MarkerRead(Err(e)) ==> event@ == News::MarkerRead(Err(e@)),
        event matches BootEvent::KeyGenerated(Ok(w)) ==> event@ == News::KeyGenerated(Ok(w@)),
        event matches BootEvent::KeyGenerated(Err(e)) ==> event@ == News::KeyGenerated(Err(e@)),
        event matches BootEvent::KeyLoaded(Ok(k)) ==> event@ == News::KeyLoaded(Ok(k@)),
        event matches BootEvent::KeyLoaded(Err(e)) ==> event@ == News::KeyLoaded(Err(e@)),
        event matches BootEvent::DirCreated(Ok(u)) ==> event@ == News::DirCreated(Ok(u)),
        event matches BootEvent::DirCreated(Err(e)) ==> event@ == News::DirCreated(Err(e@)),
        event matches BootEvent::StoreOpened(Ok(u)) ==> event@ == News::StoreOpened(Ok(u)),
        event matches BootEvent::StoreOpened(Err(e)) ==> event@ == News::StoreOpened(Err(e@)),
        event matches BootEvent::MarkerWritten(Ok(u)) ==> event@ == News::MarkerWritten(Ok(u)),
        event matches BootEvent::MarkerWritten(Err(e)) ==> event@ == News::MarkerWritten(Err(e@)),
{
}

} // verus!
