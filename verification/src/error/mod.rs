//! Error numbering, following the conventional kernel error codes.
use vstd::prelude::*;

pub mod error;

verus! {

/// The kernel's error kinds, in the conventional numbering order:
/// `errno` gives each variant its number, starting from one.
#[derive(Copy, Clone, Debug, Eq, PartialEq, Structural)]
pub enum Error {
    PERM,
    NOENT,
    SRCH,
    INTR,
    IO,
    NXIO,
    TOOBIG,
    NOEXEC,
    BADF,
    CHILD,
    AGAIN,
    NOMEM,
    ACCES,
    FAULT,
    NOTBLK,
    BUSY,
    EXIST,
    XDEV,
    NODEV,
    NOTDIR,
    ISDIR,
    INVAL,
    NFILE,
    MFILE,
    NOTTY,
    TXTBSY,
    FBIG,
    NOSPC,
    SPIPE,
    ROFS,
    MLINK,
    PIPE,
    DOM,
    RANGE,
    DEADLK,
    NAMETOOLONG,
    NOLCK,
    NOSYS,
    NOTEMPTY,
    LOOP,
    NOMSG,
    IDRM,
    CHRNG,
    L2NSYNC,
    L3HLT,
    L3RST,
    LNRNG,
    UNATCH,
    NOCSI,
    L2HLT,
    BADE,
    BADR,
    XFULL,
    NOANO,
    BADRQC,
    BADSLT,
    BFONT,
    NOSTR,
    NODATA,
    TIME,
    NOSR,
    NONET,
    NOPKG,
    REMOTE,
    NOLINK,
    ADV,
    SRMNT,
    COMM,
    PROTO,
    MULTIHOP,
    DOTDOT,
    BADMSG,
    OVERFLOW,
    NOTUNIQ,
    BADFD,
    REMCHG,
    LIBACC,
    LIBBAD,
    LIBSCN,
    LIBMAX,
    LIBEXEC,
    ILSEQ,
    RESTART,
    STRPIPE,
    USERS,
    NOTSOCK,
    DESTADDRREQ,
    MSGSIZE,
    PROTOTYPE,
    NOPROTOOPT,
    PROTONOSUPPORT,
    SOCKTNOSUPPORT,
    OPNOTSUPP,
    PFNOSUPPORT,
    AFNOSUPPORT,
    ADDRINUSE,
    ADDRNOTAVAIL,
    NETDOWN,
    NETUNREACH,
    NETRESET,
    CONNABORTED,
    CONNRESET,
    NOBUFS,
    ISCONN,
    NOTCONN,
    SHUTDOWN,
    TOOMANYREFS,
    TIMEDOUT,
    CONNREFUSED,
    HOSTDOWN,
    HOSTUNREACH,
    ALREADY,
    INPROGRESS,
    STALE,
    UCLEAN,
    NOTNAM,
    NAVAIL,
    ISNAM,
    REMOTEIO,
    DQUOT,
    NOMEDIUM,
    MEDIUMTYPE,
    CANCELED,
    NOKEY,
    KEYEXPIRED,
    KEYREVOKED,
    KEYREJECTED,
    OWNERDEAD,
    NOTRECOVERABLE,
    RFKILL,
    HWPOISON,
}

impl Error {
    /// The conventional number of this error: one for the first variant
    /// and counting up in declaration order.
    #[verifier::allow_in_spec]
    pub fn errno(self) -> i32
        returns
            (match self {
            Error::PERM => 1i32,
            Error::NOENT => 2i32,
            Error::SRCH => 3i32,
            Error::INTR => 4i32,
            Error::IO => 5i32,
            Error::NXIO => 6i32,
            Error::TOOBIG => 7i32,
            Error::NOEXEC => 8i32,
            Error::BADF => 9i32,
            Error::CHILD => 10i32,
            Error::AGAIN => 11i32,
            Error::NOMEM => 12i32,
            Error::ACCES => 13i32,
            Error::FAULT => 14i32,
            Error::NOTBLK => 15i32,
            Error::BUSY => 16i32,
            Error::EXIST => 17i32,
            Error::XDEV => 18i32,
            Error::NODEV => 19i32,
            Error::NOTDIR => 20i32,
            Error::ISDIR => 21i32,
            Error::INVAL => 22i32,
            Error::NFILE => 23i32,
            Error::MFILE => 24i32,
            Error::NOTTY => 25i32,
            Error::TXTBSY => 26i32,
            Error::FBIG => 27i32,
            Error::NOSPC => 28i32,
            Error::SPIPE => 29i32,
            Error::ROFS => 30i32,
            Error::MLINK => 31i32,
            Error::PIPE => 32i32,
            Error::DOM => 33i32,
            Error::RANGE => 34i32,
            Error::DEADLK => 35i32,
            Error::NAMETOOLONG => 36i32,
            Error::NOLCK => 37i32,
            Error::NOSYS => 38i32,
            Error::NOTEMPTY => 39i32,
            Error::LOOP => 40i32,
            Error::NOMSG => 41i32,
            Error::IDRM => 42i32,
            Error::CHRNG => 43i32,
            Error::L2NSYNC => 44i32,
            Error::L3HLT => 45i32,
            Error::L3RST => 46i32,
            Error::LNRNG => 47i32,
            Error::UNATCH => 48i32,
            Error::NOCSI => 49i32,
            Error::L2HLT => 50i32,
            Error::BADE => 51i32,
            Error::BADR => 52i32,
            Error::XFULL => 53i32,
            Error::NOANO => 54i32,
            Error::BADRQC => 55i32,
            Error::BADSLT => 56i32,
            Error::BFONT => 57i32,
            Error::NOSTR => 58i32,
            Error::NODATA => 59i32,
            Error::TIME => 60i32,
            Error::NOSR => 61i32,
            Error::NONET => 62i32,
            Error::NOPKG => 63i32,
            Error::REMOTE => 64i32,
            Error::NOLINK => 65i32,
            Error::ADV => 66i32,
            Error::SRMNT => 67i32,
            Error::COMM => 68i32,
            Error::PROTO => 69i32,
            Error::MULTIHOP => 70i32,
            Error::DOTDOT => 71i32,
            Error::BADMSG => 72i32,
            Error::OVERFLOW => 73i32,
            Error::NOTUNIQ => 74i32,
            Error::BADFD => 75i32,
            Error::REMCHG => 76i32,
            Error::LIBACC => 77i32,
            Error::LIBBAD => 78i32,
            Error::LIBSCN => 79i32,
            Error::LIBMAX => 80i32,
            Error::LIBEXEC => 81i32,
            Error::ILSEQ => 82i32,
            Error::RESTART => 83i32,
            Error::STRPIPE => 84i32,
            Error::USERS => 85i32,
            Error::NOTSOCK => 86i32,
            Error::DESTADDRREQ => 87i32,
            Error::MSGSIZE => 88i32,
            Error::PROTOTYPE => 89i32,
            Error::NOPROTOOPT => 90i32,
            Error::PROTONOSUPPORT => 91i32,
            Error::SOCKTNOSUPPORT => 92i32,
            Error::OPNOTSUPP => 93i32,
            Error::PFNOSUPPORT => 94i32,
            Error::AFNOSUPPORT => 95i32,
            Error::ADDRINUSE => 96i32,
            Error::ADDRNOTAVAIL => 97i32,
            Error::NETDOWN => 98i32,
            Error::NETUNREACH => 99i32,
            Error::NETRESET => 100i32,
            Error::CONNABORTED => 101i32,
            Error::CONNRESET => 102i32,
            Error::NOBUFS => 103i32,
            Error::ISCONN => 104i32,
            Error::NOTCONN => 105i32,
            Error::SHUTDOWN => 106i32,
            Error::TOOMANYREFS => 107i32,
            Error::TIMEDOUT => 108i32,
            Error::CONNREFUSED => 109i32,
            Error::HOSTDOWN => 110i32,
            Error::HOSTUNREACH => 111i32,
            Error::ALREADY => 112i32,
            Error::INPROGRESS => 113i32,
            Error::STALE => 114i32,
            Error::UCLEAN => 115i32,
            Error::NOTNAM => 116i32,
            Error::NAVAIL => 117i32,
            Error::ISNAM => 118i32,
            Error::REMOTEIO => 119i32,
            Error::DQUOT => 120i32,
            Error::NOMEDIUM => 121i32,
            Error::MEDIUMTYPE => 122i32,
            Error::CANCELED => 123i32,
            Error::NOKEY => 124i32,
            Error::KEYEXPIRED => 125i32,
            Error::KEYREVOKED => 126i32,
            Error::KEYREJECTED => 127i32,
            Error::OWNERDEAD => 128i32,
            Error::NOTRECOVERABLE => 129i32,
            Error::RFKILL => 130i32,
            Error::HWPOISON => 131i32,
            }),
    {
        match self {
            Error::PERM => 1i32,
            Error::NOENT => 2i32,
            Error::SRCH => 3i32,
            Error::INTR => 4i32,
            Error::IO => 5i32,
            Error::NXIO => 6i32,
            Error::TOOBIG => 7i32,
            Error::NOEXEC => 8i32,
            Error::BADF => 9i32,
            Error::CHILD => 10i32,
            Error::AGAIN => 11i32,
            Error::NOMEM => 12i32,
            Error::ACCES => 13i32,
            Error::FAULT => 14i32,
            Error::NOTBLK => 15i32,
            Error::BUSY => 16i32,
            Error::EXIST => 17i32,
            Error::XDEV => 18i32,
            Error::NODEV => 19i32,
            Error::NOTDIR => 20i32,
            Error::ISDIR => 21i32,
            Error::INVAL => 22i32,
            Error::NFILE => 23i32,
            Error::MFILE => 24i32,
            Error::NOTTY => 25i32,
            Error::TXTBSY => 26i32,
            Error::FBIG => 27i32,
            Error::NOSPC => 28i32,
            Error::SPIPE => 29i32,
            Error::ROFS => 30i32,
            Error::MLINK => 31i32,
            Error::PIPE => 32i32,
            Error::DOM => 33i32,
            Error::RANGE => 34i32,
            Error::DEADLK => 35i32,
            Error::NAMETOOLONG => 36i32,
            Error::NOLCK => 37i32,
            Error::NOSYS => 38i32,
            Error::NOTEMPTY => 39i32,
            Error::LOOP => 40i32,
            Error::NOMSG => 41i32,
            Error::IDRM => 42i32,
            Error::CHRNG => 43i32,
            Error::L2NSYNC => 44i32,
            Error::L3HLT => 45i32,
            Error::L3RST => 46i32,
            Error::LNRNG => 47i32,
            Error::UNATCH => 48i32,
            Error::NOCSI => 49i32,
            Error::L2HLT => 50i32,
            Error::BADE => 51i32,
            Error::BADR => 52i32,
            Error::XFULL => 53i32,
            Error::NOANO => 54i32,
            Error::BADRQC => 55i32,
            Error::BADSLT => 56i32,
            Error::BFONT => 57i32,
            Error::NOSTR => 58i32,
            Error::NODATA => 59i32,
            Error::TIME => 60i32,
            Error::NOSR => 61i32,
            Error::NONET => 62i32,
            Error::NOPKG => 63i32,
            Error::REMOTE => 64i32,
            Error::NOLINK => 65i32,
            Error::ADV => 66i32,
            Error::SRMNT => 67i32,
            Error::COMM => 68i32,
            Error::PROTO => 69i32,
            Error::MULTIHOP => 70i32,
            Error::DOTDOT => 71i32,
            Error::BADMSG => 72i32,
            Error::OVERFLOW => 73i32,
            Error::NOTUNIQ => 74i32,
            Error::BADFD => 75i32,
            Error::REMCHG => 76i32,
            Error::LIBACC => 77i32,
            Error::LIBBAD => 78i32,
            Error::LIBSCN => 79i32,
            Error::LIBMAX => 80i32,
            Error::LIBEXEC => 81i32,
            Error::ILSEQ => 82i32,
            Error::RESTART => 83i32,
            Error::STRPIPE => 84i32,
            Error::USERS => 85i32,
            Error::NOTSOCK => 86i32,
            Error::DESTADDRREQ => 87i32,
            Error::MSGSIZE => 88i32,
            Error::PROTOTYPE => 89i32,
            Error::NOPROTOOPT => 90i32,
            Error::PROTONOSUPPORT => 91i32,
            Error::SOCKTNOSUPPORT => 92i32,
            Error::OPNOTSUPP => 93i32,
            Error::PFNOSUPPORT => 94i32,
            Error::AFNOSUPPORT => 95i32,
            Error::ADDRINUSE => 96i32,
            Error::ADDRNOTAVAIL => 97i32,
            Error::NETDOWN => 98i32,
            Error::NETUNREACH => 99i32,
            Error::NETRESET => 100i32,
            Error::CONNABORTED => 101i32,
            Error::CONNRESET => 102i32,
            Error::NOBUFS => 103i32,
            Error::ISCONN => 104i32,
            Error::NOTCONN => 105i32,
            Error::SHUTDOWN => 106i32,
            Error::TOOMANYREFS => 107i32,
            Error::TIMEDOUT => 108i32,
            Error::CONNREFUSED => 109i32,
            Error::HOSTDOWN => 110i32,
            Error::HOSTUNREACH => 111i32,
            Error::ALREADY => 112i32,
            Error::INPROGRESS => 113i32,
            Error::STALE => 114i32,
            Error::UCLEAN => 115i32,
            Error::NOTNAM => 116i32,
            Error::NAVAIL => 117i32,
            Error::ISNAM => 118i32,
            Error::REMOTEIO => 119i32,
            Error::DQUOT => 120i32,
            Error::NOMEDIUM => 121i32,
            Error::MEDIUMTYPE => 122i32,
            Error::CANCELED => 123i32,
            Error::NOKEY => 124i32,
            Error::KEYEXPIRED => 125i32,
            Error::KEYREVOKED => 126i32,
            Error::KEYREJECTED => 127i32,
            Error::OWNERDEAD => 128i32,
            Error::NOTRECOVERABLE => 129i32,
            Error::RFKILL => 130i32,
            Error::HWPOISON => 131i32,
        }
    }
}

} // verus!
