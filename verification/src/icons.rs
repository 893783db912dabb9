use vstd::prelude::*;

use std::collections::HashMap;

verus! {

broadcast use vstd::std_specs::hash::group_hash_axioms;

/// An icon as the system monitor reports it: none, the name of a themed icon,
/// or the raw bytes of an image file.
pub enum Icon {
    Empty,
    Id(String),
    Data(Vec<u8>),
}

/// A light-weight version of `CachedIcon` that tells where to find the real
/// icon rather than carrying the image itself.
#[derive(Clone, Debug, PartialEq, Eq)]
pub enum LightCachedIcon {
    Empty,
    /// The name of a themed icon.
    StringPayload(String),
    /// The key of an application in the application icon cache, and a size.
    AppCachedKey(String, i32),
}

impl Default for LightCachedIcon {
    fn default() -> (r: Self)
        ensures
            r is Empty,
    {
        LightCachedIcon::Empty
    }
}

/// An icon together with the images decoded from it, one per width that was
/// asked for. `P` is the type of a decoded image; a width whose decoding
/// failed is remembered as `None`, so that it is not decoded again.
pub enum CachedIcon<P> {
    Empty,
    Id(String),
    CachedData(Vec<u8>, HashMap<i32, Option<P>>),
}

/// What is to be done to show an icon at some width.
#[derive(Clone, Copy, Debug, PartialEq, Eq, Structural)]
pub enum IconStep {
    /// Show the generic executable icon.
    Blank,
    /// Look the icon's name up in the icon theme.
    ByName,
    /// Show the image decoded earlier for this width.
    FromCache,
    /// Decode the image bytes at this width and store the result.
    Decode,
}

impl<P> CachedIcon<P> {
    /// What the cache holds for `width`: `None` when nothing was stored for
    /// it (or the icon holds no image data), else the stored decoding result.
    pub open spec fn cached(&self, width: i32) -> Option<Option<P>> {
        match self {
            CachedIcon::CachedData(_, cache) => if cache@.contains_key(width) {
                Some(cache@[width])
            } else {
                None
            },
            _ => None,
        }
    }

    pub open spec fn step_spec(&self, width: i32) -> IconStep {
        match self {
            CachedIcon::Empty => IconStep::Blank,
            CachedIcon::Id(_) => IconStep::ByName,
            CachedIcon::CachedData(_, _) => match self.cached(width) {
                None => IconStep::Decode,
                Some(None) => IconStep::Blank,
                Some(Some(_)) => IconStep::FromCache,
            },
        }
    }

    /// Converts an icon; image data starts with an empty cache.
    pub fn from_icon(icon: Icon) -> (r: Self)
        ensures
            match icon {
                Icon::Empty => r is Empty,
                Icon::Id(id) => r matches CachedIcon::Id(s) && s@ == id@,
                Icon::Data(bytes) => r matches CachedIcon::CachedData(b, c) && b@ == bytes@
                    && c@ == Map::<i32, Option<P>>::empty(),
            },
    {
        match icon {
            Icon::Empty => CachedIcon::Empty,
            Icon::Id(id) => CachedIcon::Id(id),
            Icon::Data(bytes) => CachedIcon::from_bytes(bytes),
        }
    }

    /// An icon from the bytes of an image file, with an empty cache.
    pub fn from_bytes(bytes: Vec<u8>) -> (r: Self)
        ensures
            r matches CachedIcon::CachedData(b, c) && b@ == bytes@ && c@ == Map::<
                i32,
                Option<P>,
            >::empty(),
    {
        CachedIcon::CachedData(bytes, HashMap::new())
    }

    /// Converts every icon of a list of keyed icons, keeping keys and order.
    pub fn convert_hash_map<K>(entries: Vec<(K, Icon)>) -> (r: Vec<(K, CachedIcon<P>)>)
        ensures
            r.len() == entries.len(),
            forall|i: int|
                #![trigger r[i]]
                0 <= i < r.len() ==> r[i].0 == entries[i].0 && converted(entries[i].1, r[i].1),
    {
        let mut entries = entries;
        let ghost orig = entries@;
        let mut rev: Vec<(K, CachedIcon<P>)> = Vec::new();
        while entries.len() > 0
            invariant
                entries@ == orig.subrange(0, entries.len() as int),
                entries.len() + rev.len() == orig.len(),
                forall|j: int|
                    #![trigger rev[j]]
                    0 <= j < rev.len() ==> rev[j].0 == orig[orig.len() - 1 - j].0 && converted(
                        orig[orig.len() - 1 - j].1,
                        rev[j].1,
                    ),
            decreases entries.len(),
        {
            let (k, icon) = entries.pop().unwrap();
            let c = CachedIcon::from_icon(icon);
            rev.push((k, c));
        }
        let mut r: Vec<(K, CachedIcon<P>)> = Vec::new();
        while rev.len() > 0
            invariant
                rev.len() + r.len() == orig.len(),
                forall|j: int|
                    #![trigger rev[j]]
                    0 <= j < rev.len() ==> rev[j].0 == orig[orig.len() - 1 - j].0 && converted(
                        orig[orig.len() - 1 - j].1,
                        rev[j].1,
                    ),
                forall|j: int|
                    #![trigger r[j]]
                    0 <= j < r.len() ==> r[j].0 == orig[j].0 && converted(orig[j].1, r[j].1),
            decreases rev.len(),
        {
            let e = rev.pop().unwrap();
            r.push(e);
        }
        r
    }

    /// What to do to show this icon at `width`.
    pub fn next_step(&self, width: i32) -> (r: IconStep)
        ensures
            r == self.step_spec(width),
    {
        match self {
            CachedIcon::Empty => IconStep::Blank,
            CachedIcon::Id(_) => IconStep::ByName,
            CachedIcon::CachedData(_, cache) => match cache.get(&width) {
                None => IconStep::Decode,
                Some(None) => IconStep::Blank,
                Some(Some(_)) => IconStep::FromCache,
            },
        }
    }

    /// The name of a themed icon, for `IconStep::ByName`.
    pub fn icon_name(&self) -> (r: Option<&str>)
        ensures
            match self {
                CachedIcon::Id(id) => r matches Some(s) && s@ == id@,
                _ => r is None,
            },
    {
        match self {
            CachedIcon::Id(id) => Some(id.as_str()),
            _ => None,
        }
    }

    /// The image bytes, for `IconStep::Decode`.
    pub fn image_bytes(&self) -> (r: Option<&Vec<u8>>)
        ensures
            match self {
                CachedIcon::CachedData(b, _) => r == Some(b),
                _ => r is None,
            },
    {
        match self {
            CachedIcon::CachedData(b, _) => Some(b),
            _ => None,
        }
    }

    /// The image decoded earlier for `width`, for `IconStep::FromCache`.
    pub fn cached_image(&self, width: i32) -> (r: Option<&P>)
        ensures
            match self.cached(width) {
                Some(Some(p)) => r == Some(&p),
                _ => r is None,
            },
    {
        match self {
            CachedIcon::CachedData(_, cache) => match cache.get(&width) {
                Some(Some(p)) => Some(p),
                _ => None,
            },
            _ => None,
        }
    }

    /// Stores what decoding the image at `width` gave. An icon without image
    /// data is left as it is.
    pub fn store_image(&mut self, width: i32, image: Option<P>)
        ensures
            match *old(self) {
                CachedIcon::CachedData(b, c) => *final(self) matches CachedIcon::CachedData(
                    b2,
                    c2,
                ) && b2@ == b@ && c2@ == c@.insert(width, image),
                _ => *final(self) == *old(self),
            },
            *old(self) is CachedData ==> final(self).cached(width) == Some(image)
                && final(self).step_spec(width) != IconStep::Decode,
            forall|w: i32| w != width ==> #[trigger] final(self).cached(w) == old(self).cached(w),
    {
        if let CachedIcon::CachedData(_, cache) = self {
            cache.insert(width, image);
        }
    }

    /// The light-weight form of this icon. Image data is only reachable
    /// through the application icon cache, so it needs the key and size
    /// under which it is found there; without them it is `Empty`.
    pub fn get_light_icon(&self, payload: Option<(String, i32)>) -> (r: LightCachedIcon)
        ensures
            match self {
                CachedIcon::Empty => r is Empty,
                CachedIcon::Id(s) => r matches LightCachedIcon::StringPayload(p) && p@ == s@,
                CachedIcon::CachedData(_, _) => match payload {
                    Some((k, size)) => r matches LightCachedIcon::AppCachedKey(k2, s2) && k2@
                        == k@ && s2 == size,
                    None => r is Empty,
                },
            },
    {
        match self {
            CachedIcon::Empty => LightCachedIcon::Empty,
            CachedIcon::Id(s) => LightCachedIcon::StringPayload(s.clone()),
            CachedIcon::CachedData(_, _) => match payload {
                Some((key, size)) => LightCachedIcon::AppCachedKey(key, size),
                None => LightCachedIcon::Empty,
            },
        }
    }
}

/// `c` is what `CachedIcon::from_icon` makes of `icon`.
pub open spec fn converted<P>(icon: Icon, c: CachedIcon<P>) -> bool {
    match icon {
        Icon::Empty => c is Empty,
        Icon::Id(id) => c matches CachedIcon::Id(s) && s@ == id@,
        Icon::Data(bytes) => c matches CachedIcon::CachedData(b, m) && b@ == bytes@ && m@
            == Map::<i32, Option<P>>::empty(),
    }
}

} // verus!
