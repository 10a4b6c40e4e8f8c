//! The Linux namespaces that a jail can have to itself.
use vstd::prelude::*;

verus! {

/// The flag of `clone` for a new cgroup namespace.
pub const CLONE_NEWCGROUP: i32 = 0x0200_0000;

/// The flag of `clone` for a new UTS namespace.
pub const CLONE_NEWUTS: i32 = 0x0400_0000;

/// The flag of `clone` for a new IPC namespace.
pub const CLONE_NEWIPC: i32 = 0x0800_0000;

/// The flag of `clone` for a new user namespace.
pub const CLONE_NEWUSER: i32 = 0x1000_0000;

/// The flag of `clone` for a new PID namespace.
pub const CLONE_NEWPID: i32 = 0x2000_0000;

/// The flag of `clone` for a new network namespace.
pub const CLONE_NEWNET: i32 = 0x4000_0000;

/// The flag of `clone` for a new mount namespace.
pub const CLONE_NEWNS: i32 = 0x0002_0000;

/// The flags of all namespaces that can be chosen.
pub const ALL_NAMESPACES: i32 = 0x6e00_0000;

/// The flags of `clone` that the system interface knows by name.
pub const KNOWN_CLONE_FLAGS: u32 = 0xfec7_ef00;

/// Bit flags representing Linux namespaces.
///
/// The namespaces represented here can be unshared in a jail, where
/// unsharing means that the system information and resources associated
/// with the namespace will be separate and isolated from the corresponding
/// resources on the host system.
///
/// Note that the mount and user namespaces are not represented by
/// [`Namespace`]. These namespaces are unshared unconditionally because they
/// are required for the jail to operate.
#[derive(Debug, Clone, Copy, PartialEq, Eq, Hash, Structural)]
pub struct Namespace {
    bits: i32,
}

/// The flags by which a process is cloned into a jail: those of the chosen
/// namespaces, and always those of the mount and user namespaces.
pub open spec fn jail_flags(bits: i32) -> i32 {
    bits | CLONE_NEWNS | CLONE_NEWUSER
}

/// The flags of `clone` that are left of `bits`, by
/// `nix::sched::CloneFlags::from_bits`: all of them, unless one is not
/// among the flags that the interface knows.
#[verifier::external_body]
fn known_clone_flags(bits: i32) -> (r: Option<i32>)
    ensures
        r == (if (bits as u32) & !KNOWN_CLONE_FLAGS == 0 {
            Some(bits)
        } else {
            None
        }),
{
    nix::sched::CloneFlags::from_bits(bits).map(|flags| flags.bits())
}

impl View for Namespace {
    type V = i32;

    /// The flags of the namespaces.
    closed spec fn view(&self) -> i32 {
        self.bits
    }
}

impl Default for Namespace {
    /// No namespaces.
    fn default() -> (r: Namespace)
        ensures
            r@ == 0,
    {
        Namespace::empty()
    }
}

impl Namespace {
    /// Whether there are no flags but those of namespaces that can be chosen.
    #[verifier::type_invariant]
    spec fn chosen(self) -> bool {
        self.bits & !ALL_NAMESPACES == 0
    }

    /// No namespaces.
    pub fn empty() -> (r: Namespace)
        ensures
            r@ == 0,
    {
        assert(0i32 & !0x6e00_0000i32 == 0) by (bit_vector);
        Namespace { bits: 0 }
    }

    /// All namespaces that can be chosen.
    pub fn all() -> (r: Namespace)
        ensures
            r@ == ALL_NAMESPACES,
    {
        assert(0x6e00_0000i32 & !0x6e00_0000i32 == 0) by (bit_vector);
        Namespace { bits: ALL_NAMESPACES }
    }

    /// The cgroup namespace.
    pub fn cgroup() -> (r: Namespace)
        ensures
            r@ == CLONE_NEWCGROUP,
    {
        assert(0x0200_0000i32 & !0x6e00_0000i32 == 0) by (bit_vector);
        Namespace { bits: CLONE_NEWCGROUP }
    }

    /// The UTS namespace.
    pub fn uts() -> (r: Namespace)
        ensures
            r@ == CLONE_NEWUTS,
    {
        assert(0x0400_0000i32 & !0x6e00_0000i32 == 0) by (bit_vector);
        Namespace { bits: CLONE_NEWUTS }
    }

    /// The IPC namespace.
    pub fn ipc() -> (r: Namespace)
        ensures
            r@ == CLONE_NEWIPC,
    {
        assert(0x0800_0000i32 & !0x6e00_0000i32 == 0) by (bit_vector);
        Namespace { bits: CLONE_NEWIPC }
    }

    /// The PID namespace.
    pub fn pid() -> (r: Namespace)
        ensures
            r@ == CLONE_NEWPID,
    {
        assert(0x2000_0000i32 & !0x6e00_0000i32 == 0) by (bit_vector);
        Namespace { bits: CLONE_NEWPID }
    }

    /// The network namespace.
    pub fn net() -> (r: Namespace)
        ensures
            r@ == CLONE_NEWNET,
    {
        assert(0x4000_0000i32 & !0x6e00_0000i32 == 0) by (bit_vector);
        Namespace { bits: CLONE_NEWNET }
    }

    /// The namespaces of either of two sets.
    pub fn union(self, other: Namespace) -> (r: Namespace)
        ensures
            r@ == self@ | other@,
    {
        proof {
            use_type_invariant(self);
            use_type_invariant(other);
            let a = self.bits;
            let b = other.bits;
            assert((a | b) & !0x6e00_0000i32 == 0) by (bit_vector)
                requires
                    a & !0x6e00_0000i32 == 0,
                    b & !0x6e00_0000i32 == 0,
            ;
        }
        Namespace { bits: self.bits | other.bits }
    }

    /// The flags of the namespaces.
    pub fn bits(self) -> (r: i32)
        ensures
            r == self@,
            r & !ALL_NAMESPACES == 0,
    {
        proof {
            use_type_invariant(self);
        }
        self.bits
    }

    /// The flags by which a process is cloned into a jail that unshares the
    /// namespaces.
    pub fn clone_flags(self) -> (r: i32)
        ensures
            r == jail_flags(self@),
    {
        proof {
            use_type_invariant(self);
            let b = self.bits;
            assert((b as u32) & !0xfec7_ef00u32 == 0) by (bit_vector)
                requires
                    b & !0x6e00_0000i32 == 0,
            ;
        }
        match known_clone_flags(self.bits) {
            Some(flags) => flags | CLONE_NEWNS | CLONE_NEWUSER,
            None => {
                assert(false);
                0
            },
        }
    }
}

/// The mount and user namespaces are unshared in every jail.
pub proof fn mount_and_user_are_always_unshared(bits: i32)
    ensures
        jail_flags(bits) & CLONE_NEWNS == CLONE_NEWNS,
        jail_flags(bits) & CLONE_NEWUSER == CLONE_NEWUSER,
{
    assert((bits | 0x0002_0000i32 | 0x1000_0000i32) & 0x0002_0000i32 == 0x0002_0000i32)
        by (bit_vector);
    assert((bits | 0x0002_0000i32 | 0x1000_0000i32) & 0x1000_0000i32 == 0x1000_0000i32)
        by (bit_vector);
}

/// Of the namespaces that can be chosen, a jail unshares exactly those that
/// were chosen.
pub proof fn only_chosen_are_unshared(bits: i32)
    requires
        bits & !ALL_NAMESPACES == 0,
    ensures
        jail_flags(bits) & ALL_NAMESPACES == bits,
{
    assert((bits | 0x0002_0000i32 | 0x1000_0000i32) & 0x6e00_0000i32 == bits) by (bit_vector)
        requires
            bits & !0x6e00_0000i32 == 0,
    ;
}

/// All namespaces together are the union of the five.
pub proof fn all_is_the_five_together()
    ensures
        ALL_NAMESPACES == CLONE_NEWCGROUP | CLONE_NEWUTS | CLONE_NEWIPC | CLONE_NEWPID
            | CLONE_NEWNET,
{
    assert(0x6e00_0000i32 == 0x0200_0000i32 | 0x0400_0000i32 | 0x0800_0000i32 | 0x2000_0000i32
        | 0x4000_0000i32) by (bit_vector);
}

/// A jail is cloned with no other flags than those of namespaces.
pub proof fn only_namespaces_are_asked_for(bits: i32)
    requires
        bits & !ALL_NAMESPACES == 0,
    ensures
        jail_flags(bits) & !ALL_NAMESPACES == CLONE_NEWNS | CLONE_NEWUSER,
{
    assert((bits | 0x0002_0000i32 | 0x1000_0000i32) & !0x6e00_0000i32 == 0x0002_0000i32
        | 0x1000_0000i32) by (bit_vector)
        requires
            bits & !0x6e00_0000i32 == 0,
    ;
}

} // verus!
