//! Authentication: devices are registered from an attestation that answers a challenge, and
//! then verify the credentials a user presents, also bound to a challenge.

use core::marker::PhantomData;
use vstd::prelude::*;

use crate::pass::consideration::Codec;
use crate::weight::Weight;

verus! {

/// The length of a challenge.
pub const CHALLENGE_SIZE: usize = 32;

/// A challenge that an attestation or a credential answers.
pub type Challenge = [u8; 32];

pub type DeviceId = [u8; 32];

pub type AuthorityId = [u8; 32];

/// The length of a hashed user id.
pub const HASHED_USER_ID_LEN: usize = 32;

pub type HashedUserId = [u8; 32];

/// A value given by a type: a parameter of the runtime.
pub trait Get<T> {
    /// The value the type gives.
    spec fn value() -> T;

    /// Gives the value.
    fn get() -> (r: T)
        ensures
            r == Self::value(),
    ;
}

/// The context of the extrinsic being authenticated, which challengers see as bytes.
pub trait ExtrinsicContext {
    /// The bytes of the context.
    spec fn context(&self) -> Seq<u8>;

    /// The bytes of the context.
    fn context_bytes(&self) -> (r: &[u8])
        ensures
            r@ == self.context(),
    ;
}

impl ExtrinsicContext for Vec<u8> {
    open spec fn context(&self) -> Seq<u8> {
        self@
    }

    fn context_bytes(&self) -> (r: &[u8]) {
        self.as_slice()
    }
}

impl ExtrinsicContext for [u8] {
    open spec fn context(&self) -> Seq<u8> {
        self@
    }

    fn context_bytes(&self) -> (r: &[u8]) {
        self
    }
}

/// Whether a presented challenge is the one that was generated: the same bytes.
pub fn challenge_matches(generated: &Challenge, challenge: &[u8]) -> (r: Option<()>)
    ensures
        r is Some <==> challenge@ == generated@,
{
    if challenge.len() != CHALLENGE_SIZE {
        return None;
    }
    let mut i: usize = 0;
    while i < CHALLENGE_SIZE
        invariant
            challenge@.len() == 32,
            generated@.len() == 32,
            0 <= i <= 32,
            forall|j: int| 0 <= j < i ==> challenge@[j] == generated@[j],
        decreases 32 - i,
    {
        if challenge[i] != generated[i] {
            return None;
        }
        i = i + 1;
    }
    assert(challenge@ =~= generated@);
    Some(())
}

/// Whether two authorities are the same.
pub fn same_authority(a: &AuthorityId, b: &AuthorityId) -> (r: bool)
    ensures
        r <==> a@ == b@,
{
    let mut i: usize = 0;
    while i < 32
        invariant
            a@.len() == 32,
            b@.len() == 32,
            0 <= i <= 32,
            forall|j: int| 0 <= j < i ==> a@[j] == b@[j],
        decreases 32 - i,
    {
        if a[i] != b[i] {
            return false;
        }
        i = i + 1;
    }
    assert(a@ =~= b@);
    true
}

/// Given some context, deterministically generates the challenge that authenticators answer.
pub trait Challenger {
    type Context;

    /// The challenge that the context `cx` generates for the extrinsic context `context`.
    spec fn challenge_for(cx: Self::Context, context: Seq<u8>) -> Seq<u8>;

    fn generate<X: ExtrinsicContext + ?Sized>(cx: &Self::Context, xtc: &X) -> (r: Challenge)
        ensures
            r@ == Self::challenge_for(*cx, xtc.context()),
    ;

    /// Whether the context generates the presented challenge: never for a challenge of
    /// another length than a generated one.
    fn check_challenge<X: ExtrinsicContext + ?Sized>(
        cx: &Self::Context,
        xtc: &X,
        challenge: &[u8],
    ) -> (r: Option<()>)
        ensures
            r is Some <==> challenge@ == Self::challenge_for(*cx, xtc.context()),
        default_ensures
            challenge@.len() != CHALLENGE_SIZE ==> r is None,
    {
        let generated = Self::generate(cx, xtc);
        challenge_matches(&generated, challenge)
    }
}

/// The weights of an authenticator's verification routines, by the lengths of the client data
/// (`c`) and of the authenticator data (`a`) of what is verified.
pub trait AuthenticatorWeightInfo {
    fn verify_device(c: u32, a: u32) -> Weight;

    fn verify_user(c: u32, a: u32) -> Weight;
}

/// No cost at all.
impl AuthenticatorWeightInfo for () {
    fn verify_device(c: u32, a: u32) -> (r: Weight)
        ensures
            r.ref_time == 0 && r.proof_size == 0,
    {
        Weight::zero()
    }

    fn verify_user(c: u32, a: u32) -> (r: Weight)
        ensures
            r.ref_time == 0 && r.proof_size == 0,
    {
        Weight::zero()
    }
}

/// A response to a challenge, for registering a new authentication device.
pub trait DeviceChallengeResponse<Cx>: Sized {
    /// Whether the attestation is valid in itself.
    spec fn attests_validly(&self) -> bool;

    /// The context and the challenge the attestation answers.
    spec fn attested_challenge(&self) -> (Cx, Challenge);

    /// The authority the attestation names.
    spec fn attesting_authority(&self) -> AuthorityId;

    /// The id of the device attested.
    spec fn attested_device(&self) -> DeviceId;

    fn is_valid(&self) -> (r: bool)
        ensures
            r == self.attests_validly(),
    ;

    fn used_challenge(&self) -> (r: (Cx, Challenge))
        ensures
            r == self.attested_challenge(),
    ;

    fn authority(&self) -> (r: AuthorityId)
        ensures
            r == self.attesting_authority(),
    ;

    fn device_id(&self) -> (r: &DeviceId)
        ensures
            *r == self.attested_device(),
    ;
}

/// A response to a challenge, for identifying a user.
pub trait UserChallengeResponse<Cx>: Sized {
    /// Whether the response is valid in itself.
    spec fn responds_validly(&self) -> bool;

    /// The context and the challenge the response answers.
    spec fn challenge_used(&self) -> (Cx, Challenge);

    /// The authority the response names.
    spec fn named_authority(&self) -> AuthorityId;

    fn is_valid(&self) -> (r: bool)
        ensures
            r == self.responds_validly(),
    ;

    fn used_challenge(&self) -> (r: (Cx, Challenge))
        ensures
            r == self.challenge_used(),
    ;

    fn authority(&self) -> (r: AuthorityId)
        ensures
            r == self.named_authority(),
    ;

    /// The user the response identifies.
    spec fn identified_user(&self) -> HashedUserId;

    fn user_id(&self) -> (r: HashedUserId)
        ensures
            r == self.identified_user(),
    ;
}

/// Whether an attestation or a credential passes the checks that do not depend on the
/// authenticator: it names the expected authority, its challenge was checked, and it is valid.
pub fn response_accepted(
    authority: &AuthorityId,
    expected: &AuthorityId,
    challenge_checked: Option<()>,
    valid: bool,
) -> (r: bool)
    ensures
        r <==> authority@ == expected@ && challenge_checked is Some && valid,
{
    same_authority(authority, expected) && challenge_checked.is_some() && valid
}

/// Whether `device` accepts `credential` in the extrinsic context `context`: the credential
/// names the device's authority, answers the challenge its context generates for `context`,
/// is valid, and the device accepts it.
pub open spec fn user_verified<U: UserAuthenticator>(device: U, credential: U::Credential, context: Seq<u8>) -> bool {
    &&& credential.named_authority()@ == U::Authority::value()@
    &&& credential.challenge_used().1@ == <U::Challenger as Challenger>::challenge_for(
        credential.challenge_used().0,
        context,
    )
    &&& credential.responds_validly()
    &&& device.accepts_credential(credential)
}

/// Whether the authenticator `Au` accepts `attestation` in the extrinsic context `context`:
/// it names `Au`'s authority, answers the challenge its context generates for `context`, and
/// is valid.
pub open spec fn attestation_verified<Au: Authenticator>(attestation: Au::DeviceAttestation, context: Seq<u8>) -> bool {
    &&& attestation.attesting_authority()@ == Au::Authority::value()@
    &&& attestation.attested_challenge().1@ == <Au::Challenger as Challenger>::challenge_for(
        attestation.attested_challenge().0,
        context,
    )
    &&& attestation.attests_validly()
}

/// A device, able to verify the credentials a user presents.
pub trait UserAuthenticator: Sized {
    type Authority: Get<AuthorityId>;
    type Challenger: Challenger;
    type Credential: UserChallengeResponse<<Self::Challenger as Challenger>::Context>;
    type WeightInfo: AuthenticatorWeightInfo;

    /// The weight of verifying a credential whose encoding is `encoded_size` bytes long: the
    /// whole size is fed as both components, an upper bound for weights that grow with each.
    fn verification_weight(encoded_size: u32) -> (r: Weight)
        default_ensures
            call_ensures(<Self::WeightInfo as AuthenticatorWeightInfo>::verify_user, (encoded_size, encoded_size), r),
    {
        Self::WeightInfo::verify_user(encoded_size, encoded_size)
    }

    /// Verifies a credential: it must name this device's authority, answer the challenge of
    /// its context, be valid, and be accepted by the device.
    fn verify_user<X: ExtrinsicContext + ?Sized>(
        &mut self,
        credential: &Self::Credential,
        xtc: &X,
    ) -> (r: Option<()>)
        ensures
            r is Some <==> {
                &&& credential.named_authority()@ == Self::Authority::value()@
                &&& credential.challenge_used().1@ == <Self::Challenger as Challenger>::challenge_for(
                    credential.challenge_used().0,
                    xtc.context(),
                )
                &&& credential.responds_validly()
                &&& old(self).accepts_credential(*credential)
            },
    {
        let authority = credential.authority();
        let expected = Self::Authority::get();
        if !same_authority(&authority, &expected) {
            return None;
        }
        let (cx, challenge) = credential.used_challenge();
        let checked = Self::Challenger::check_challenge(&cx, xtc, &challenge);
        let valid = credential.is_valid();
        if !response_accepted(&authority, &expected, checked, valid) {
            return None;
        }
        self.verify_credential(credential)
    }

    /// Whether the device accepts the credential.
    spec fn accepts_credential(&self, credential: Self::Credential) -> bool;

    fn verify_credential(&mut self, credential: &Self::Credential) -> (r: Option<()>)
        ensures
            r is Some <==> old(self).accepts_credential(*credential),
    ;

    fn device_id(&self) -> &DeviceId;
}

/// Verifies authentication devices, which in turn verify users.
pub trait Authenticator {
    type Authority: Get<AuthorityId>;
    type Challenger: Challenger;
    type DeviceAttestation: DeviceChallengeResponse<<Self::Challenger as Challenger>::Context>;
    type Device: UserAuthenticator<Challenger = Self::Challenger>;
    type WeightInfo: AuthenticatorWeightInfo;

    /// The weight of verifying an attestation whose encoding is `encoded_size` bytes long: the
    /// whole size is fed as both components, an upper bound for weights that grow with each.
    fn verification_weight(encoded_size: u32) -> (r: Weight)
        default_ensures
            call_ensures(<Self::WeightInfo as AuthenticatorWeightInfo>::verify_device, (encoded_size, encoded_size), r),
    {
        Self::WeightInfo::verify_device(encoded_size, encoded_size)
    }

    /// Verifies an attestation: it must name this authenticator's authority, answer the
    /// challenge of its context and be valid; the device is then taken out of it.
    fn verify_device<X: ExtrinsicContext + ?Sized>(
        attestation: Self::DeviceAttestation,
        xtc: &X,
    ) -> (r: Option<Self::Device>)
        ensures
            r is Some <==> {
                &&& attestation.attesting_authority()@ == Self::Authority::value()@
                &&& attestation.attested_challenge().1@ == <Self::Challenger as Challenger>::challenge_for(
                    attestation.attested_challenge().0,
                    xtc.context(),
                )
                &&& attestation.attests_validly()
            },
        default_ensures
            r matches Some(d) ==> call_ensures(Self::unpack_device, (attestation,), d),
    {
        let authority = attestation.authority();
        let expected = Self::Authority::get();
        if !same_authority(&authority, &expected) {
            return None;
        }
        let (cx, challenge) = attestation.used_challenge();
        let checked = Self::Challenger::check_challenge(&cx, xtc, &challenge);
        let valid = attestation.is_valid();
        if !response_accepted(&authority, &expected, checked, valid) {
            return None;
        }
        Some(Self::unpack_device(attestation))
    }

    /// Takes the device out of an attestation.
    fn unpack_device(attestation: Self::DeviceAttestation) -> Self::Device;
}

/// Provides a context that a challenger accepts at the current point of a benchmark.
pub trait ChallengerBenchmarkHelper: Challenger {
    fn benchmark_context() -> Self::Context;
}

/// Produces a valid attestation of a new device, for benchmarks.
pub trait DeviceAttestationBenchmarkHelper<Cx>: DeviceChallengeResponse<Cx> {
    fn benchmark_attestation(authority: AuthorityId, context: Cx, challenge: Challenge) -> Self;
}

/// Produces a valid credential, for benchmarks.
pub trait CredentialBenchmarkHelper<Cx>: UserChallengeResponse<Cx> {
    fn benchmark_credential(
        authority: AuthorityId,
        user_id: HashedUserId,
        device_id: DeviceId,
        context: Cx,
        challenge: Challenge,
    ) -> Self;
}

/// Produces valid inputs for an authenticator, for benchmarking its consumers.
pub trait AuthenticatorBenchmarkHelper: Authenticator {
    fn device_attestation<X: ExtrinsicContext + ?Sized>(xtc: &X) -> Self::DeviceAttestation;

    fn credential<X: ExtrinsicContext + ?Sized>(
        user_id: HashedUserId,
        device_id: DeviceId,
        xtc: &X,
    ) -> <Self::Device as UserAuthenticator>::Credential;
}

/// The id of a pallet: eight bytes.
#[derive(Clone, Copy, Debug, PartialEq, Eq)]
pub struct PalletId(pub [u8; 8]);

/// The authority that a pallet id stands for: its eight bytes, then zeros.
pub open spec fn authority_of_pallet(id: Seq<u8>) -> Seq<u8> {
    id + Seq::new(24, |i: int| 0u8)
}

/// The authority of a pallet: its id's bytes followed by zeros, up to the authority's length.
pub fn authority_from_pallet_id(id: &PalletId) -> (r: AuthorityId)
    ensures
        r@ == authority_of_pallet(id.0@),
{
    let mut out: AuthorityId = [0u8; 32];
    let mut i: usize = 0;
    while i < 8
        invariant
            0 <= i <= 8,
            out@.len() == 32,
            id.0@.len() == 8,
            forall|j: int| 0 <= j < i ==> out@[j] == id.0@[j],
            forall|j: int| 8 <= j < 32 ==> out@[j] == 0u8,
        decreases 8 - i,
    {
        out[i] = id.0[i];
        i = i + 1;
    }
    assert(out@ =~= authority_of_pallet(id.0@));
    out
}

/// The authority of the pallet whose id `Id` gives.
pub struct AuthorityFromPalletId<Id>(PhantomData<Id>);

/// The authority whose bytes are those of the pallet id `id` followed by zeros.
pub closed spec fn pallet_authority(id: PalletId) -> AuthorityId {
    choose|a: AuthorityId| #[trigger] a@ == authority_of_pallet(id.0@)
}

impl<Id: Get<PalletId>> Get<AuthorityId> for AuthorityFromPalletId<Id> {
    open spec fn value() -> AuthorityId {
        pallet_authority(Id::value())
    }

    fn get() -> (r: AuthorityId)
        ensures
            r@ == authority_of_pallet(Id::value().0@),
    {
        let id = Id::get();
        let r = authority_from_pallet_id(&id);
        assert(r =~= pallet_authority(id));
        r
    }
}

/// An authenticator made of a device type and its attestation type: the device is made from
/// the attestation.
pub struct Auth<Dev, Att>(PhantomData<(Dev, Att)>);

impl<Dev, Att> Authenticator for Auth<Dev, Att> where
    Att: DeviceChallengeResponse<<<Dev as UserAuthenticator>::Challenger as Challenger>::Context>,
    Dev: UserAuthenticator + From<Att>,
 {
    type Authority = <Dev as UserAuthenticator>::Authority;
    type Challenger = <Dev as UserAuthenticator>::Challenger;
    type DeviceAttestation = Att;
    type Device = Dev;
    type WeightInfo = ();

    fn unpack_device(attestation: Att) -> (r: Dev)
        ensures
            <Dev as vstd::std_specs::convert::FromSpec<Att>>::obeys_from_spec() ==> r
                == <Dev as vstd::std_specs::convert::FromSpec<Att>>::from_spec(attestation),
    {
        Dev::from(attestation)
    }
}

/// Verifies a credential of type `Cred`.
pub trait VerifyCredential<Cred> {
    /// Whether the credential is accepted.
    spec fn accepts(&self, credential: Cred) -> bool;

    fn verify(&self, credential: &Cred) -> (r: Option<()>)
        ensures
            r is Some <==> self.accepts(*credential),
    ;
}

/// A device made of a value `T` that verifies credentials and names the device, for the
/// authority `A`, the challenger `Ch` and credentials of type `Cred`.
pub struct Dev<T, A, Ch, Cred>(T, PhantomData<(A, Ch, Cred)>);

impl<T: Clone, A, Ch, Cred> Clone for Dev<T, A, Ch, Cred> {
    /// A device made of a clone of the value.
    fn clone(&self) -> (r: Self)
        ensures
            cloned(self.inner(), r.inner()),
    {
        Dev(self.0.clone(), PhantomData)
    }
}

impl<T, A, Ch, Cred> Dev<T, A, Ch, Cred> {
    /// The value the device is made of.
    pub closed spec fn inner(&self) -> T {
        self.0
    }

    /// A device made of `t`.
    pub fn new(t: T) -> (r: Self)
        ensures
            r.inner() == t,
    {
        Dev(t, PhantomData)
    }
}

/// A device is stored as the value it is made of.
impl<T: Codec, A, Ch, Cred> Codec for Dev<T, A, Ch, Cred> {
    /// The encoding of the value the device is made of.
    fn encode(&self) -> (r: Vec<u8>)
        ensures
            call_ensures(T::encode, (&self.inner(),), r),
    {
        let r = self.0.encode();
        assert(call_ensures(T::encode, (&self.0,), r));
        r
    }

    /// The device made of the value decoded, and the length of its encoding.
    fn decode(input: &[u8]) -> (r: Option<(Self, usize)>)
        ensures
            exists|d: Option<(T, usize)>|
                #[trigger] call_ensures(T::decode, (input,), d) && match (d, r) {
                    (Some((t, n)), Some((v, m))) => v.inner() == t && m == n,
                    (None, None) => true,
                    _ => false,
                },
    {
        let d = T::decode(input);
        assert(call_ensures(T::decode, (input,), d));
        match d {
            Some((t, n)) => Some((Dev(t, PhantomData), n)),
            None => None,
        }
    }

    /// The longest encoding of a device: that of the value it is made of.
    fn max_encoded_len() -> (r: usize)
        ensures
            call_ensures(T::max_encoded_len, (), r),
    {
        let r = T::max_encoded_len();
        assert(call_ensures(T::max_encoded_len, (), r));
        r
    }
}

/// A value that names a device.
pub trait DeviceIdRef {
    /// The id of the device.
    spec fn named_id(&self) -> DeviceId;

    fn device_id_ref(&self) -> (r: &DeviceId)
        ensures
            *r == self.named_id(),
    ;
}

impl<T, A, Ch, Cred> UserAuthenticator for Dev<T, A, Ch, Cred> where
    T: VerifyCredential<Cred> + DeviceIdRef,
    A: Get<AuthorityId>,
    Ch: Challenger,
    Cred: UserChallengeResponse<Ch::Context>,
 {
    type Authority = A;
    type Challenger = Ch;
    type Credential = Cred;
    type WeightInfo = ();

    open spec fn accepts_credential(&self, credential: Cred) -> bool {
        self.inner().accepts(credential)
    }

    fn verify_credential(&mut self, credential: &Cred) -> (r: Option<()>)
        ensures
            *final(self) == *old(self),
            r is Some <==> old(self).inner().accepts(*credential),
    {
        self.0.verify(credential)
    }

    fn device_id(&self) -> (r: &DeviceId)
        ensures
            *r == self.inner().named_id(),
    {
        self.0.device_id_ref()
    }
}

/// The id of the device of a dummy attestation that names none.
pub const DUMMY_DEV: DeviceId = [
    100u8, 117, 109, 109, 121, 95, 100, 101, 118, 105, 99, 101, 0, 0, 0, 0, 0, 0, 0, 0, 0, 0, 0, 0,
    0, 0, 0, 0, 0, 0, 0, 0,
];

/// The user of dummy credentials in tests.
pub const DUMMY_USER: HashedUserId = [
    100u8, 117, 109, 109, 121, 95, 117, 115, 101, 114, 95, 104, 97, 115, 104, 0, 0, 0, 0, 0, 0, 0,
    0, 0, 0, 0, 0, 0, 0, 0, 0, 0,
];

/// An attestation, for tests, that is valid or not as it is told, for the authority `A`.
#[derive(Debug, PartialEq, Eq)]
pub struct DummyAttestation<A>(bool, Option<DeviceId>, PhantomData<A>);

/// An invalid attestation that names no device.
impl<A> Default for DummyAttestation<A> {
    fn default() -> (r: Self)
        ensures
            !r.valid(),
            r.device() is None,
    {
        DummyAttestation(false, None, PhantomData)
    }
}

impl<A> Clone for DummyAttestation<A> {
    fn clone(&self) -> (r: Self)
        ensures
            r == *self,
    {
        DummyAttestation(self.0, self.1, PhantomData)
    }
}

impl<A> DummyAttestation<A> {
    /// Whether the attestation is valid.
    pub closed spec fn valid(&self) -> bool {
        self.0
    }

    /// The device it names, if any.
    pub closed spec fn device(&self) -> Option<DeviceId> {
        self.1
    }

    /// An attestation of `device_id`, valid or not as `value` says.
    pub fn new(value: bool, device_id: DeviceId) -> (r: Self)
        ensures
            r.valid() == value,
            r.device() == Some(device_id),
    {
        DummyAttestation(value, Some(device_id), PhantomData)
    }

    /// The device it names, or the dummy device when it names none.
    pub fn named_device(&self) -> (r: &DeviceId)
        ensures
            *r == (match self.device() {
                Some(d) => d,
                None => DUMMY_DEV,
            }),
    {
        match &self.1 {
            Some(d) => d,
            None => &DUMMY_DEV,
        }
    }
}

/// A credential, for tests, that is valid or not as it is told, for the authority `A`.
#[derive(Debug, PartialEq, Eq)]
pub struct DummyCredential<A>(bool, HashedUserId, PhantomData<A>);

impl<A> Clone for DummyCredential<A> {
    fn clone(&self) -> (r: Self)
        ensures
            r == *self,
    {
        DummyCredential(self.0, self.1, PhantomData)
    }
}

impl<A> DummyCredential<A> {
    /// Whether the credential is valid.
    pub closed spec fn valid(&self) -> bool {
        self.0
    }

    /// The user it identifies.
    pub closed spec fn user(&self) -> HashedUserId {
        self.1
    }

    /// A credential of `user_id`, valid or not as `value` says.
    pub fn new(value: bool, user_id: HashedUserId) -> (r: Self)
        ensures
            r.valid() == value,
            r.user() == user_id,
    {
        DummyCredential(value, user_id, PhantomData)
    }
}

/// The challenger of the dummy authenticator: its context is a byte, and its challenge that
/// byte repeated.
impl Challenger for u8 {
    type Context = u8;

    open spec fn challenge_for(cx: u8, context: Seq<u8>) -> Seq<u8> {
        Seq::new(32, |i: int| cx)
    }

    fn generate<X: ExtrinsicContext + ?Sized>(cx: &u8, xtc: &X) -> (r: Challenge)
        ensures
            r@ == Seq::new(32, |i: int| *cx),
    {
        let mut r: Challenge = [0u8; 32];
        let mut i: usize = 0;
        while i < 32
            invariant
                0 <= i <= 32,
                r@.len() == 32,
                forall|j: int| 0 <= j < i ==> r@[j] == *cx,
            decreases 32 - i,
        {
            r[i] = *cx;
            i = i + 1;
        }
        assert(r@ =~= Seq::new(32, |i: int| *cx));
        r
    }
}

/// The dummy device: made of a dummy attestation.
pub type DummyDev<A> = Dev<DummyAttestation<A>, A, u8, DummyCredential<A>>;

/// The dummy authenticator.
pub type Dummy<A> = Auth<DummyDev<A>, DummyAttestation<A>>;

impl<A> From<DummyAttestation<A>> for DummyDev<A> {
    fn from(value: DummyAttestation<A>) -> (r: DummyDev<A>) {
        DummyDev::new(value)
    }
}

impl<A> vstd::std_specs::convert::FromSpecImpl<DummyAttestation<A>> for DummyDev<A> {
    open spec fn obeys_from_spec() -> bool {
        true
    }

    open spec fn from_spec(value: DummyAttestation<A>) -> DummyDev<A> {
        dummy_device_of(value)
    }
}

/// The dummy device an attestation makes.
pub closed spec fn dummy_device_of<A>(value: DummyAttestation<A>) -> DummyDev<A> {
    Dev(value, PhantomData)
}

impl<A> DeviceIdRef for DummyAttestation<A> {
    open spec fn named_id(&self) -> DeviceId {
        match self.device() {
            Some(d) => d,
            None => DUMMY_DEV,
        }
    }

    fn device_id_ref(&self) -> (r: &DeviceId)
        ensures
            *r == (match self.device() {
                Some(d) => d,
                None => DUMMY_DEV,
            }),
    {
        self.named_device()
    }
}

impl<A> VerifyCredential<DummyCredential<A>> for DummyAttestation<A> {
    open spec fn accepts(&self, credential: DummyCredential<A>) -> bool {
        self.valid()
    }

    fn verify(&self, credential: &DummyCredential<A>) -> (r: Option<()>)
        ensures
            r is Some <==> self.valid(),
    {
        if self.0 {
            Some(())
        } else {
            None
        }
    }
}

impl<A: Get<AuthorityId>> DeviceChallengeResponse<u8> for DummyAttestation<A> {
    open spec fn attests_validly(&self) -> bool {
        self.valid()
    }

    open spec fn attested_challenge(&self) -> (u8, Challenge) {
        (0u8, zero_challenge())
    }

    open spec fn attesting_authority(&self) -> AuthorityId {
        A::value()
    }

    open spec fn attested_device(&self) -> DeviceId {
        match self.device() {
            Some(d) => d,
            None => DUMMY_DEV,
        }
    }

    fn is_valid(&self) -> (r: bool)
        ensures
            r == self.valid(),
    {
        self.0
    }

    fn used_challenge(&self) -> (r: (u8, Challenge))
        ensures
            r.0 == 0 && r.1@ == Seq::new(32, |i: int| 0u8),
    {
        let c = [0u8; 32];
        assert(c@ =~= Seq::new(32, |i: int| 0u8));
        assert(c =~= zero_challenge());
        (0, c)
    }

    fn authority(&self) -> (r: AuthorityId)
        ensures
            r == A::value(),
    {
        A::get()
    }

    fn device_id(&self) -> (r: &DeviceId)
        ensures
            *r == (match self.device() {
                Some(d) => d,
                None => DUMMY_DEV,
            }),
    {
        self.named_device()
    }
}

/// The challenge of zeros that dummy responses answer.
pub closed spec fn zero_challenge() -> Challenge {
    choose|c: Challenge| #[trigger] c@ == Seq::new(32, |i: int| 0u8)
}

impl<A: Get<AuthorityId>> UserChallengeResponse<u8> for DummyCredential<A> {
    open spec fn responds_validly(&self) -> bool {
        self.valid()
    }

    open spec fn challenge_used(&self) -> (u8, Challenge) {
        (0u8, zero_challenge())
    }

    open spec fn named_authority(&self) -> AuthorityId {
        A::value()
    }

    fn is_valid(&self) -> (r: bool)
        ensures
            r == self.valid(),
    {
        self.0
    }

    fn used_challenge(&self) -> (r: (u8, Challenge))
        ensures
            r.0 == 0 && r.1@ == Seq::new(32, |i: int| 0u8),
    {
        let c = [0u8; 32];
        assert(c@ =~= Seq::new(32, |i: int| 0u8));
        assert(c =~= zero_challenge());
        (0, c)
    }

    fn authority(&self) -> (r: AuthorityId)
        ensures
            r == A::value(),
    {
        A::get()
    }

    open spec fn identified_user(&self) -> HashedUserId {
        self.user()
    }

    fn user_id(&self) -> (r: HashedUserId)
        ensures
            r == self.user(),
    {
        self.1
    }
}

} // verus!
