//! The addresses shown in the account settings.

use vstd::prelude::*;

verus! {

/// The kind of a third-party identifier of the user.
pub enum Medium {
    Email,
    Msisdn,
    /// A kind the settings do not show.
    Other,
}

impl DeepView for Medium {
    type V = Medium;

    open spec fn deep_view(&self) -> Medium {
        *self
    }
}

/// A third-party identifier of the user: its kind and its address.
pub struct ThirdPartyId {
    pub medium: Medium,
    pub address: String,
}

/// The mathematical value of a [`ThirdPartyId`].
pub struct ThirdPartyIdView {
    pub medium: Medium,
    pub address: Seq<char>,
}

impl View for ThirdPartyId {
    type V = ThirdPartyIdView;

    open spec fn view(&self) -> ThirdPartyIdView {
        ThirdPartyIdView { medium: self.medium, address: self.address@ }
    }
}

impl DeepView for ThirdPartyId {
    type V = ThirdPartyIdView;

    open spec fn deep_view(&self) -> ThirdPartyIdView {
        self@
    }
}

/// Whether the identifier at `i` is the first of its kind.
pub open spec fn first_of_kind(items: Seq<ThirdPartyIdView>, i: int) -> bool {
    forall|j: int| 0 <= j < i ==> !(#[trigger] items[j].medium == items[i].medium)
}

/// The address of the first identifier of a kind, if any.
pub open spec fn first_address(items: Seq<ThirdPartyIdView>, m: Medium) -> Option<Seq<char>>
    decreases items.len(),
{
    if items.len() == 0 {
        None
    } else if items[0].medium == m {
        Some(items[0].address)
    } else {
        first_address(items.drop_first(), m)
    }
}

/// The row shown for the identifier at `i`: an email or phone entry
/// holding its address (a phone number with `+` before it), empty for the
/// first of its kind, whose address goes into the entry already there;
/// none for another kind.
pub open spec fn row_of(items: Seq<ThirdPartyIdView>, i: int) -> Option<(Medium, Option<Seq<char>>)> {
    match items[i].medium {
        Medium::Email => Some(
            (
                Medium::Email,
                if first_of_kind(items, i) {
                    None
                } else {
                    Some(items[i].address)
                },
            ),
        ),
        Medium::Msisdn => Some(
            (
                Medium::Msisdn,
                if first_of_kind(items, i) {
                    None
                } else {
                    Some("+"@ + items[i].address)
                },
            ),
        ),
        Medium::Other => None,
    }
}

/// The rows shown for the identifiers, in order.
pub open spec fn rows_of(items: Seq<ThirdPartyIdView>, n: int) -> Seq<(Medium, Option<Seq<char>>)>
    decreases n,
{
    if n <= 0 {
        Seq::empty()
    } else {
        match row_of(items, n - 1) {
            Some(r) => rows_of(items, n - 1).push(r),
            None => rows_of(items, n - 1),
        }
    }
}

/// What the account settings show for the user's addresses.
pub struct AddressRows {
    /// The address put into the email entry that is always there.
    pub email: Option<String>,
    /// The number put into the phone entry that is always there.
    pub phone: Option<String>,
    /// The entries added below, in order.
    pub rows: Vec<(Medium, Option<String>)>,
}

/// A copy of a kind.
fn copy_medium(m: &Medium) -> (r: Medium)
    ensures
        r == *m,
{
    match m {
        Medium::Email => Medium::Email,
        Medium::Msisdn => Medium::Msisdn,
        Medium::Other => Medium::Other,
    }
}

/// The addresses the account settings show for the user's third-party
/// identifiers (none known counts as none).
pub fn three_pid_rows(data: Option<Vec<ThirdPartyId>>) -> (r: AddressRows)
    ensures
        r.email.deep_view() == first_address(
            match data {
                Some(v) => v.deep_view(),
                None => Seq::empty(),
            },
            Medium::Email,
        ),
        r.phone.deep_view() == first_address(
            match data {
                Some(v) => v.deep_view(),
                None => Seq::empty(),
            },
            Medium::Msisdn,
        ),
        r.rows.deep_view() == rows_of(
            match data {
                Some(v) => v.deep_view(),
                None => Seq::empty(),
            },
            match data {
                Some(v) => v@.len() as int,
                None => 0,
            },
        ),
{
    let items = match data {
        Some(v) => v,
        None => Vec::new(),
    };
    let ghost s = items.deep_view();
    let mut email: Option<String> = None;
    let mut phone: Option<String> = None;
    let mut rows: Vec<(Medium, Option<String>)> = Vec::new();
    let mut i: usize = 0;
    while i < items.len()
        invariant
            i <= items@.len(),
            s == items.deep_view(),
            rows.deep_view() == rows_of(s, i as int),
            email.deep_view() == first_address(s.take(i as int), Medium::Email),
            phone.deep_view() == first_address(s.take(i as int), Medium::Msisdn),
            email is None <==> forall|j: int| 0 <= j < i ==> !(#[trigger] s[j].medium == Medium::Email),
            phone is None <==> forall|j: int| 0 <= j < i ==> !(#[trigger] s[j].medium == Medium::Msisdn),
        decreases items@.len() - i,
    {
        let item = &items[i];
        let ghost prev = rows.deep_view();
        proof {
            lemma_first_address_extend(s, i as int, Medium::Email);
            lemma_first_address_extend(s, i as int, Medium::Msisdn);
        }
        match &item.medium {
            Medium::Email => {
                let first = email.is_none();
                if first {
                    email = Some(item.address.clone());
                    rows.push((Medium::Email, None));
                } else {
                    rows.push((Medium::Email, Some(item.address.clone())));
                }
                proof {
                    assert(first == first_of_kind(s, i as int));
                    assert(rows.deep_view() =~= prev.push(row_of(s, i as int)->Some_0));
                }
            },
            Medium::Msisdn => {
                let first = phone.is_none();
                if first {
                    phone = Some(item.address.clone());
                    rows.push((Medium::Msisdn, None));
                } else {
                    let mut n = "+".to_owned();
                    n.append(item.address.as_str());
                    rows.push((Medium::Msisdn, Some(n)));
                }
                proof {
                    reveal_strlit("+");
                    assert(first == first_of_kind(s, i as int));
                    assert(rows.deep_view() =~= prev.push(row_of(s, i as int)->Some_0));
                }
            },
            Medium::Other => {},
        }
        i = i + 1;
    }
    assert(s.take(items@.len() as int) =~= s);
    AddressRows { email, phone, rows }
}

/// The first address of a kind among the first `i + 1` identifiers: the
/// one among the first `i`, else the one at `i` when it is of that kind.
proof fn lemma_first_address_extend(s: Seq<ThirdPartyIdView>, i: int, m: Medium)
    requires
        0 <= i < s.len(),
    ensures
        first_address(s.take(i + 1), m) == match first_address(s.take(i), m) {
            Some(a) => Some(a),
            None => if s[i].medium == m {
                Some(s[i].address)
            } else {
                None
            },
        },
        first_address(s.take(i), m) is None <==> forall|j: int| 0 <= j < i ==> !(#[trigger] s[j].medium == m),
    decreases i,
{
    if i == 0 {
        assert(s.take(1).drop_first().len() == 0);
        assert(s.take(0).len() == 0);
        assert(s.take(1)[0] == s[0]);
        assert(first_address(s.take(1).drop_first(), m) is None);
        assert(first_address(s.take(0), m) is None);
    } else {
        lemma_first_address_extend(s.drop_first(), i - 1, m);
        assert(s.take(i + 1).drop_first() =~= s.drop_first().take(i));
        assert(s.take(i).drop_first() =~= s.drop_first().take(i - 1));
        assert(s.take(i + 1)[0] == s[0]);
        assert(s.take(i)[0] == s[0]);
        assert(s.drop_first()[i - 1] == s[i]);
        if s[0].medium != m {
            assert(first_address(s.take(i + 1), m) == first_address(s.drop_first().take(i), m));
            assert(first_address(s.take(i), m) == first_address(s.drop_first().take(i - 1), m));
            let none_here = forall|j: int| 0 <= j < i ==> !(#[trigger] s[j].medium == m);
            let none_after = forall|k: int| 0 <= k < i - 1 ==> !(#[trigger] s.drop_first()[k].medium == m);
            assert(none_here <==> none_after) by {
                assert forall|k: int| 0 <= k < i - 1 implies #[trigger] s.drop_first()[k] == s[k + 1] by {}
                if none_after {
                    assert forall|j: int| 0 <= j < i implies !(#[trigger] s[j].medium == m) by {
                        if j > 0 {
                            assert(s.drop_first()[j - 1] == s[j]);
                        }
                    }
                }
            }
        }
    }
}

} // verus!
