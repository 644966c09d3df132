//! The model providers and what each can be used for.
use vstd::prelude::*;

use crate::text::same;

pub mod anthropic;
pub mod voyage;

verus! {

/// What a provider can be used for.
#[derive(Clone, Copy, PartialEq, Eq, Structural, Debug)]
pub enum Capability {
    Embed,
    Summarize,
}

/// A provider and its capabilities.
#[derive(Debug)]
pub struct ProviderInfo {
    pub name: &'static str,
    pub capabilities: Vec<Capability>,
}

/// What a [`ProviderInfo`] holds.
#[verifier::ext_equal]
pub struct ProviderInfoView {
    pub name: Seq<char>,
    pub capabilities: Seq<Capability>,
}

impl DeepView for ProviderInfo {
    type V = ProviderInfoView;

    open spec fn deep_view(&self) -> ProviderInfoView {
        ProviderInfoView { name: self.name@, capabilities: self.capabilities@ }
    }
}

/// The providers. Voyage has no summarization endpoint.
pub open spec fn all_providers() -> Seq<ProviderInfoView> {
    seq![
        ProviderInfoView { name: "voyage"@, capabilities: seq![Capability::Embed] },
        ProviderInfoView { name: "openai"@, capabilities: seq![Capability::Embed] },
        ProviderInfoView { name: "ollama"@, capabilities: seq![Capability::Embed] },
        ProviderInfoView { name: "anthropic"@, capabilities: seq![Capability::Summarize] },
    ]
}

/// The providers, in order.
pub fn providers() -> (r: Vec<ProviderInfo>)
    ensures
        r.deep_view() == all_providers(),
{
    let r = vec![
        ProviderInfo { name: "voyage", capabilities: vec![Capability::Embed] },
        ProviderInfo { name: "openai", capabilities: vec![Capability::Embed] },
        ProviderInfo { name: "ollama", capabilities: vec![Capability::Embed] },
        ProviderInfo { name: "anthropic", capabilities: vec![Capability::Summarize] },
    ];
    proof {
        let want = all_providers();
        assert(r@[0].capabilities@ =~= seq![Capability::Embed]);
        assert(r@[1].capabilities@ =~= seq![Capability::Embed]);
        assert(r@[2].capabilities@ =~= seq![Capability::Embed]);
        assert(r@[3].capabilities@ =~= seq![Capability::Summarize]);
        assert(r.deep_view() =~= want);
    }
    r
}

/// Whether a provider is known and offers the capability.
pub open spec fn offers(list: Seq<ProviderInfoView>, name: Seq<char>, cap: Capability) -> bool {
    exists|i: int|
        0 <= i < list.len() && (#[trigger] list[i]).name == name && list[i].capabilities.contains(
            cap,
        )
}

/// The names of the providers that offer the capability, in order.
pub open spec fn offering(list: Seq<ProviderInfoView>, cap: Capability) -> Seq<Seq<char>>
    decreases list.len(),
{
    if list.len() == 0 {
        Seq::<Seq<char>>::empty()
    } else {
        let head = offering(list.drop_last(), cap);
        if list.last().capabilities.contains(cap) {
            head.push(list.last().name)
        } else {
            head
        }
    }
}

fn has_capability(list: &Vec<Capability>, cap: Capability) -> (r: bool)
    ensures
        r == list@.contains(cap),
{
    let mut i: usize = 0;
    while i < list.len()
        invariant
            i <= list@.len(),
            forall|j: int| 0 <= j < i ==> list@[j] != cap,
        decreases list@.len() - i,
    {
        if list[i] == cap {
            return true;
        }
        i += 1;
    }
    false
}

/// Whether `name` is a known provider that offers `cap`.
pub fn supports(name: &str, cap: Capability) -> (r: bool)
    ensures
        r == offers(all_providers(), name@, cap),
{
    let list = providers();
    let ghost lv = list.deep_view();
    let mut i: usize = 0;
    while i < list.len()
        invariant
            i <= list@.len(),
            lv == list.deep_view(),
            lv == all_providers(),
            forall|j: int|
                0 <= j < i ==> !((#[trigger] lv[j]).name == name@ && lv[j].capabilities.contains(
                    cap,
                )),
        decreases list@.len() - i,
    {
        assert(lv[i as int] == list@[i as int].deep_view());
        if same(list[i].name, name) && has_capability(&list[i].capabilities, cap) {
            return true;
        }
        i += 1;
    }
    false
}

/// The names of the providers that offer `cap`, in order.
pub fn names_with(cap: Capability) -> (r: Vec<&'static str>)
    ensures
        r.deep_view() == offering(all_providers(), cap),
{
    let list = providers();
    let ghost lv = list.deep_view();
    let mut out: Vec<&'static str> = Vec::new();
    let mut i: usize = 0;
    assert(out.deep_view() =~= offering(lv.take(0), cap));
    while i < list.len()
        invariant
            i <= list@.len(),
            lv == list.deep_view(),
            lv == all_providers(),
            out.deep_view() == offering(lv.take(i as int), cap),
        decreases list@.len() - i,
    {
        let ghost before = out.deep_view();
        proof {
            assert(lv.take(i + 1).drop_last() =~= lv.take(i as int));
            assert(lv.take(i + 1).last() == list@[i as int].deep_view());
        }
        if has_capability(&list[i].capabilities, cap) {
            out.push(list[i].name);
            assert(out.deep_view() =~= before.push(list@[i as int].name@));
        }
        i += 1;
    }
    assert(lv.take(i as int) =~= lv);
    out
}

/// The names of the providers that offer `cap`, as one text.
pub fn names_text(cap: Capability) -> (r: String)
    ensures
        r@ == crate::text::joined(offering(all_providers(), cap), ", "@),
{
    let names = names_with(cap);
    let ghost nv = names.deep_view();
    let mut list: Vec<String> = Vec::new();
    let mut i: usize = 0;
    assert(list.deep_view() =~= nv.take(0));
    while i < names.len()
        invariant
            i <= names@.len(),
            nv == names.deep_view(),
            list.deep_view() == nv.take(i as int),
        decreases names@.len() - i,
    {
        let ghost before = list.deep_view();
        let s = names[i].to_string();
        let ghost sv = s@;
        list.push(s);
        proof {
            assert(nv[i as int] == sv);
            assert(list.deep_view() =~= before.push(sv));
            assert(nv.take(i + 1) =~= nv.take(i as int).push(nv[i as int]));
        }
        i += 1;
    }
    assert(nv.take(i as int) =~= nv);
    crate::text::join(&list, ", ")
}

/// A provider is listed for a capability exactly when it offers it.
pub proof fn law_listed_providers_offer(
    list: Seq<ProviderInfoView>,
    name: Seq<char>,
    cap: Capability,
)
    ensures
        offering(list, cap).contains(name) <==> offers(list, name, cap),
    decreases list.len(),
{
    if list.len() > 0 {
        let head = list.drop_last();
        law_listed_providers_offer(head, name, cap);
        let all = offering(list, cap);
        let before = offering(head, cap);
        assert(forall|i: int| 0 <= i < head.len() ==> head[i] == list[i]);
        if before.contains(name) {
            let i = choose|i: int| 0 <= i < before.len() && before[i] == name;
            assert(all[i] == name);
            let j = choose|j: int|
                0 <= j < head.len() && (#[trigger] head[j]).name == name
                    && head[j].capabilities.contains(cap);
            assert(list[j].name == name);
        }
        if all.contains(name) && !before.contains(name) {
            let i = choose|i: int| 0 <= i < all.len() && all[i] == name;
            if i < before.len() {
                assert(before[i] == name);
            }
            assert(list[list.len() - 1].name == name);
        }
        if offers(list, name, cap) {
            let j = choose|j: int|
                0 <= j < list.len() && (#[trigger] list[j]).name == name
                    && list[j].capabilities.contains(cap);
            if j < head.len() {
                assert(head[j].name == name);
            } else {
                assert(all[before.len() as int] == name);
            }
        }
    }
}

} // verus!
