use vstd::prelude::*;

verus! {

/// An IP address, as the octets of an IPv4 address or the segments of an
/// IPv6 address.
#[derive(Clone, Copy, Debug, PartialEq, Eq)]
pub enum IpAddress {
    V4([u8; 4]),
    V6([u16; 8]),
}

/// The IPv4 loopback address `127.0.0.1`.
pub open spec fn spec_localhost() -> IpAddress {
    IpAddress::V4([127u8, 0u8, 0u8, 1u8])
}

impl IpAddress {
    /// Loopback as an interface sees it: an IPv4 address in `127.0.0.0/8`,
    /// or the IPv6 address `::1`.
    pub open spec fn spec_is_loopback(self) -> bool {
        match self {
            IpAddress::V4(o) => o@[0] == 127,
            IpAddress::V6(s) => s@ == seq![0u16, 0u16, 0u16, 0u16, 0u16, 0u16, 0u16, 1u16],
        }
    }

    /// The IPv4 loopback address `127.0.0.1`.
    pub fn localhost() -> (r: IpAddress)
        ensures
            r == spec_localhost(),
    {
        IpAddress::V4([127u8, 0u8, 0u8, 1u8])
    }

    /// Whether the address is a loopback address.
    pub fn is_loopback(&self) -> (r: bool)
        ensures
            r == self.spec_is_loopback(),
    {
        match self {
            IpAddress::V4(o) => o[0] == 127,
            IpAddress::V6(s) => {
                let r = s[0] == 0 && s[1] == 0 && s[2] == 0 && s[3] == 0 && s[4] == 0 && s[5] == 0
                    && s[6] == 0 && s[7] == 1;
                assert(r <==> s@ =~= seq![0u16, 0u16, 0u16, 0u16, 0u16, 0u16, 0u16, 1u16]);
                r
            },
        }
    }

    /// Whether this is an IPv4 address.
    pub fn is_ipv4(&self) -> (r: bool)
        ensures
            r == (*self is V4),
    {
        match self {
            IpAddress::V4(_) => true,
            IpAddress::V6(_) => false,
        }
    }

    /// Whether this is an IPv6 address.
    pub fn is_ipv6(&self) -> (r: bool)
        ensures
            r == (*self is V6),
    {
        match self {
            IpAddress::V4(_) => false,
            IpAddress::V6(_) => true,
        }
    }
}

/// Which addresses an address list keeps.
pub enum IpFamily {
    Any,
    V4,
    V6,
}

/// Whether `a` belongs to `family`.
pub open spec fn in_family(a: IpAddress, family: IpFamily) -> bool {
    match family {
        IpFamily::Any => true,
        IpFamily::V4 => a is V4,
        IpFamily::V6 => a is V6,
    }
}

/// The non-loopback addresses of `family` among `addrs`, in their order.
pub open spec fn usable_addresses(addrs: Seq<IpAddress>, family: IpFamily) -> Seq<IpAddress> {
    addrs.filter(|a: IpAddress| !a.spec_is_loopback() && in_family(a, family))
}

fn select_addresses(addrs: &[IpAddress], family: IpFamily) -> (r: Vec<IpAddress>)
    ensures
        r@ == usable_addresses(addrs@, family),
{
    let ghost pred = |a: IpAddress| !a.spec_is_loopback() && in_family(a, family);
    let mut r: Vec<IpAddress> = Vec::new();
    let mut i: usize = 0;
    while i < addrs.len()
        invariant
            i <= addrs@.len(),
            pred == (|a: IpAddress| !a.spec_is_loopback() && in_family(a, family)),
            r@ == addrs@.take(i as int).filter(pred),
        decreases addrs@.len() - i,
    {
        let a = addrs[i];
        let keep = !a.is_loopback() && match family {
            IpFamily::Any => true,
            IpFamily::V4 => a.is_ipv4(),
            IpFamily::V6 => a.is_ipv6(),
        };
        proof {
            assert(addrs@.take(i + 1) == addrs@.take(i as int).push(a));
            addrs@.take(i as int).lemma_filter_push(a, pred);
        }
        if keep {
            r.push(a);
        }
        i = i + 1;
    }
    assert(addrs@.take(addrs@.len() as int) == addrs@);
    r
}

/// All non-loopback addresses among the machine's interface addresses `addrs`.
pub fn get_ip_list(addrs: &[IpAddress]) -> (r: Vec<IpAddress>)
    ensures
        r@ == usable_addresses(addrs@, IpFamily::Any),
{
    select_addresses(addrs, IpFamily::Any)
}

/// All non-loopback IPv4 addresses among the machine's interface addresses `addrs`.
pub fn get_ipv4_list(addrs: &[IpAddress]) -> (r: Vec<IpAddress>)
    ensures
        r@ == usable_addresses(addrs@, IpFamily::V4),
{
    select_addresses(addrs, IpFamily::V4)
}

/// All non-loopback IPv6 addresses among the machine's interface addresses `addrs`.
pub fn get_ipv6_list(addrs: &[IpAddress]) -> (r: Vec<IpAddress>)
    ensures
        r@ == usable_addresses(addrs@, IpFamily::V6),
{
    select_addresses(addrs, IpFamily::V6)
}

/// Law: the IPv4 list and the IPv6 list split the full list. Each holds the
/// full list's addresses of its own family, in the same order, and the two
/// together hold as many addresses as the full list.
pub proof fn lemma_family_lists_partition(addrs: Seq<IpAddress>)
    ensures
        usable_addresses(addrs, IpFamily::V4) == usable_addresses(addrs, IpFamily::Any).filter(
            |a: IpAddress| a is V4,
        ),
        usable_addresses(addrs, IpFamily::V6) == usable_addresses(addrs, IpFamily::Any).filter(
            |a: IpAddress| a is V6,
        ),
        usable_addresses(addrs, IpFamily::V4).len() + usable_addresses(addrs, IpFamily::V6).len()
            == usable_addresses(addrs, IpFamily::Any).len(),
    decreases addrs.len(),
{
    let p_any = |a: IpAddress| !a.spec_is_loopback() && in_family(a, IpFamily::Any);
    let p_v4 = |a: IpAddress| !a.spec_is_loopback() && in_family(a, IpFamily::V4);
    let p_v6 = |a: IpAddress| !a.spec_is_loopback() && in_family(a, IpFamily::V6);
    let is_v4 = |a: IpAddress| a is V4;
    let is_v6 = |a: IpAddress| a is V6;
    if addrs.len() == 0 {
        reveal(Seq::filter);
    } else {
        let s = addrs.drop_last();
        let x = addrs.last();
        lemma_family_lists_partition(s);
        assert(addrs == s.push(x));
        s.lemma_filter_push(x, p_any);
        s.lemma_filter_push(x, p_v4);
        s.lemma_filter_push(x, p_v6);
        s.filter(p_any).lemma_filter_push(x, is_v4);
        s.filter(p_any).lemma_filter_push(x, is_v6);
    }
}

/// Law: no address list holds a loopback address, and each address that it
/// holds belongs to the list's family.
pub proof fn lemma_usable_addresses_are_usable(addrs: Seq<IpAddress>, family: IpFamily, i: int)
    requires
        0 <= i < usable_addresses(addrs, family).len(),
    ensures
        !usable_addresses(addrs, family)[i].spec_is_loopback(),
        in_family(usable_addresses(addrs, family)[i], family),
{
    addrs.lemma_filter_pred(|a: IpAddress| !a.spec_is_loopback() && in_family(a, family), i);
}

/// Law: the IPv4 list followed by the IPv6 list is a permutation of the full
/// list: together they hold each usable address as often as the full list.
pub proof fn lemma_family_lists_permute_full_list(addrs: Seq<IpAddress>)
    ensures
        (usable_addresses(addrs, IpFamily::V4) + usable_addresses(
            addrs,
            IpFamily::V6,
        )).to_multiset() =~= usable_addresses(addrs, IpFamily::Any).to_multiset(),
    decreases addrs.len(),
{
    broadcast use vstd::seq_lib::group_to_multiset_ensures;
    broadcast use vstd::multiset::group_multiset_axioms;

    let v4 = usable_addresses(addrs, IpFamily::V4);
    let v6 = usable_addresses(addrs, IpFamily::V6);
    let any = usable_addresses(addrs, IpFamily::Any);
    vstd::seq_lib::lemma_multiset_commutative(v4, v6);
    if addrs.len() == 0 {
        reveal(Seq::filter);
        assert(v4.len() == 0 && v6.len() == 0 && any.len() == 0);
        assert(v4.to_multiset() =~= vstd::multiset::Multiset::empty());
        assert(v6.to_multiset() =~= vstd::multiset::Multiset::empty());
        assert(any.to_multiset() =~= vstd::multiset::Multiset::empty());
    } else {
        let s = addrs.drop_last();
        let x = addrs.last();
        lemma_family_lists_permute_full_list(s);
        let s4 = usable_addresses(s, IpFamily::V4);
        let s6 = usable_addresses(s, IpFamily::V6);
        let sa = usable_addresses(s, IpFamily::Any);
        vstd::seq_lib::lemma_multiset_commutative(s4, s6);
        assert(addrs == s.push(x));
        s.lemma_filter_push(x, |a: IpAddress| !a.spec_is_loopback() && in_family(a, IpFamily::Any));
        s.lemma_filter_push(x, |a: IpAddress| !a.spec_is_loopback() && in_family(a, IpFamily::V4));
        s.lemma_filter_push(x, |a: IpAddress| !a.spec_is_loopback() && in_family(a, IpFamily::V6));
        if !x.spec_is_loopback() {
            if x is V4 {
                assert(v4 == s4.push(x));
                assert(v6 == s6);
                assert(any == sa.push(x));
            } else {
                assert(v4 == s4);
                assert(v6 == s6.push(x));
                assert(any == sa.push(x));
            }
        } else {
            assert(v4 == s4);
            assert(v6 == s6);
            assert(any == sa);
        }
    }
}

/// An IPv4 address outside `127.0.0.0/8`.
pub open spec fn is_non_loopback_v4(a: IpAddress) -> bool {
    match a {
        IpAddress::V4(o) => o@[0] != 127,
        IpAddress::V6(_) => false,
    }
}

/// An IPv6 address other than `::1`.
pub open spec fn is_non_loopback_v6(a: IpAddress) -> bool {
    match a {
        IpAddress::V4(_) => false,
        IpAddress::V6(g) => g@ != seq![0u16, 0u16, 0u16, 0u16, 0u16, 0u16, 0u16, 1u16],
    }
}

/// Law: the address lists keep every usable interface address and nothing
/// else. An IPv4 address outside `127.0.0.0/8` is in the full list and in
/// the IPv4 list; an IPv6 address other than `::1` is in the full list and in
/// the IPv6 list. Whatever a list holds is one of the interface addresses,
/// neither `127.x.x.x` nor `::1`, and of the list's family; each list keeps
/// the interface addresses in their order.
pub proof fn lemma_address_lists_keep_usable(addrs: Seq<IpAddress>)
    ensures
        forall|i: int|
            0 <= i < addrs.len() && is_non_loopback_v4(#[trigger] addrs[i]) ==> usable_addresses(
                addrs,
                IpFamily::Any,
            ).contains(addrs[i]) && usable_addresses(addrs, IpFamily::V4).contains(addrs[i]),
        forall|i: int|
            0 <= i < addrs.len() && is_non_loopback_v6(#[trigger] addrs[i]) ==> usable_addresses(
                addrs,
                IpFamily::Any,
            ).contains(addrs[i]) && usable_addresses(addrs, IpFamily::V6).contains(addrs[i]),
        forall|x: IpAddress| #[trigger]
            usable_addresses(addrs, IpFamily::Any).contains(x) ==> addrs.contains(x) && (
            is_non_loopback_v4(x) || is_non_loopback_v6(x)),
        forall|x: IpAddress| #[trigger]
            usable_addresses(addrs, IpFamily::V4).contains(x) ==> addrs.contains(x)
                && is_non_loopback_v4(x),
        forall|x: IpAddress| #[trigger]
            usable_addresses(addrs, IpFamily::V6).contains(x) ==> addrs.contains(x)
                && is_non_loopback_v6(x),
        usable_addresses(addrs, IpFamily::Any) == addrs.filter(
            |a: IpAddress| is_non_loopback_v4(a) || is_non_loopback_v6(a),
        ),
        usable_addresses(addrs, IpFamily::V4) == addrs.filter(|a: IpAddress| is_non_loopback_v4(a)),
        usable_addresses(addrs, IpFamily::V6) == addrs.filter(|a: IpAddress| is_non_loopback_v6(a)),
{
    let p_any = |a: IpAddress| !a.spec_is_loopback() && in_family(a, IpFamily::Any);
    let p_v4 = |a: IpAddress| !a.spec_is_loopback() && in_family(a, IpFamily::V4);
    let p_v6 = |a: IpAddress| !a.spec_is_loopback() && in_family(a, IpFamily::V6);
    let q_any = |a: IpAddress| is_non_loopback_v4(a) || is_non_loopback_v6(a);
    let q_v4 = |a: IpAddress| is_non_loopback_v4(a);
    let q_v6 = |a: IpAddress| is_non_loopback_v6(a);
    assert(p_any =~= q_any);
    assert(p_v4 =~= q_v4);
    assert(p_v6 =~= q_v6);
    assert forall|i: int| 0 <= i < addrs.len() && is_non_loopback_v4(#[trigger] addrs[i]) implies
        usable_addresses(addrs, IpFamily::Any).contains(addrs[i]) && usable_addresses(
        addrs,
        IpFamily::V4,
    ).contains(addrs[i]) by {
        addrs.lemma_filter_contains(p_any, i);
        addrs.lemma_filter_contains(p_v4, i);
    }
    assert forall|i: int| 0 <= i < addrs.len() && is_non_loopback_v6(#[trigger] addrs[i]) implies
        usable_addresses(addrs, IpFamily::Any).contains(addrs[i]) && usable_addresses(
        addrs,
        IpFamily::V6,
    ).contains(addrs[i]) by {
        addrs.lemma_filter_contains(p_any, i);
        addrs.lemma_filter_contains(p_v6, i);
    }
    #[allow(deprecated)]
    addrs.filter_lemma(p_any);
    #[allow(deprecated)]
    addrs.filter_lemma(p_v4);
    #[allow(deprecated)]
    addrs.filter_lemma(p_v6);
    assert forall|x: IpAddress| #[trigger]
        usable_addresses(addrs, IpFamily::Any).contains(x) implies addrs.contains(x) && (
        is_non_loopback_v4(x) || is_non_loopback_v6(x)) by {
        addrs.lemma_filter_contains_rev(p_any, x);
        let f = usable_addresses(addrs, IpFamily::Any);
        let j = choose|j: int| 0 <= j < f.len() && f[j] == x;
        assert(p_any(f[j]));
    }
    assert forall|x: IpAddress| #[trigger]
        usable_addresses(addrs, IpFamily::V4).contains(x) implies addrs.contains(x)
        && is_non_loopback_v4(x) by {
        addrs.lemma_filter_contains_rev(p_v4, x);
        let f = usable_addresses(addrs, IpFamily::V4);
        let j = choose|j: int| 0 <= j < f.len() && f[j] == x;
        assert(p_v4(f[j]));
    }
    assert forall|x: IpAddress| #[trigger]
        usable_addresses(addrs, IpFamily::V6).contains(x) implies addrs.contains(x)
        && is_non_loopback_v6(x) by {
        addrs.lemma_filter_contains_rev(p_v6, x);
        let f = usable_addresses(addrs, IpFamily::V6);
        let j = choose|j: int| 0 <= j < f.len() && f[j] == x;
        assert(p_v6(f[j]));
    }
}

} // verus!
