//! A site handler for an image-gallery site: where its downloads go and the
//! addresses it discovers.
use vstd::prelude::*;
use vstd::string::StringExecFns;

verus! {

/// The gallery handler; downloaded images are written under `path`.
pub struct HuaBanHandler {
    pub path: &'static str,
}

impl HuaBanHandler {
    pub fn new(path: &'static str) -> (r: HuaBanHandler)
        ensures
            r.path@ == path@,
    {
        HuaBanHandler { path }
    }
}

/// The address of the image stored under `key`.
pub fn pin_image_address(key: &str) -> (r: String)
    ensures
        r@ == "https://hbimg.huabanimg.com/"@ + key@,
{
    let mut r = String::from_str("https://hbimg.huabanimg.com/");
    r.append(key);
    r
}

/// The address of the page of pins that follows the pin numbered `max`.
pub fn more_pins_address(max: &str) -> (r: String)
    ensures
        r@ == "https://huaban.com/discovery/beauty/?kqfbzohe&max="@ + max@ + "&limit=30&wfl=1"@,
{
    let mut r = String::from_str("https://huaban.com/discovery/beauty/?kqfbzohe&max=");
    r.append(max);
    r.append("&limit=30&wfl=1");
    r
}

} // verus!
