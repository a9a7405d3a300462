//! The price tags the program knows, as read from its configuration.
use vstd::prelude::*;

verus! {

/// A registered price tag: its MAC address and its screen size.
pub struct Tag {
    pub mac: String,
    pub width: u32,
    pub height: u32,
}

/// The configuration: the access point's host and the registered tags.
pub struct Settings {
    pub epaper_link_host: String,
    pub tags: Vec<Tag>,
}

/// Whether no tag before index `k` has this MAC address.
pub open spec fn absent_before(tags: Seq<Tag>, mac: Seq<char>, k: int) -> bool {
    forall|j: int| 0 <= j < k ==> (#[trigger] tags[j]).mac@ != mac
}

/// The first tag with the given MAC address, if any.
pub fn find_tag(settings: &Settings, mac: &String) -> (r: Option<Tag>)
    ensures
        r is None <==> absent_before(settings.tags@, mac@, settings.tags@.len() as int),
        r matches Some(t) ==> exists|i: int|
            0 <= i < settings.tags@.len() && absent_before(settings.tags@, mac@, i) && #[trigger] settings.tags@[i].mac@
                == mac@ && t.mac@ == mac@ && t.width == settings.tags@[i].width && t.height
                == settings.tags@[i].height,
{
    let mut i: usize = 0;
    while i < settings.tags.len()
        invariant
            i <= settings.tags@.len(),
            absent_before(settings.tags@, mac@, i as int),
        decreases settings.tags@.len() - i,
    {
        let t = &settings.tags[i];
        if t.mac == *mac {
            return Some(Tag { mac: t.mac.clone(), width: t.width, height: t.height });
        }
        i = i + 1;
    }
    None
}

} // verus!
