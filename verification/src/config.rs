//! Typed configuration and catalog records, parsed from attribute lists.
//!
//! The upstream configuration document and the server catalog both arrive as
//! XML. The caller reduces each element to its name and a plain list of
//! name/value attribute pairs; everything from that point on — field
//! dispatch, numeric parsing, defaults for malformed values — is verified
//! here.

use vstd::prelude::*;

use crate::utils::{
    parse_micro_or_zero, parse_u64_or_zero, spec_parse_micro_or_zero, spec_parse_u64_or_zero,
};

verus! {

/// One name/value pair of an element, as the caller read it.
pub struct ConfigAttribute {
    pub name: String,
    pub value: String,
}

/// The value of the last attribute called `name`, the one that wins when a
/// name repeats.
pub open spec fn last_value(attrs: Seq<ConfigAttribute>, name: Seq<char>) -> Option<Seq<char>>
    decreases attrs.len(),
{
    if attrs.len() == 0 {
        None
    } else if attrs.last().name@ == name {
        Some(attrs.last().value@)
    } else {
        last_value(attrs.drop_last(), name)
    }
}

/// The winning value of `name`, or the empty string where the attribute
/// never occurs: an absent attribute keeps its documented default.
pub open spec fn attr_text(attrs: Seq<ConfigAttribute>, name: Seq<char>) -> Seq<char> {
    match last_value(attrs, name) {
        Some(v) => v,
        None => Seq::empty(),
    }
}

/// A type that a configuration element's attribute list fills in.
///
/// Each record type states with `built_from` which value each of its fields
/// takes from a given attribute list; `from_xml` delivers exactly that.
pub trait GenerateConfig: Sized {
    /// Whether `self` holds the field values this attribute list dictates.
    spec fn built_from(&self, attrs: Seq<ConfigAttribute>) -> bool;

    /// The record the attribute list dictates.
    fn from_xml(attrs: &Vec<ConfigAttribute>) -> (r: Self)
        ensures
            r.built_from(attrs@),
    ;
}

/// The record of type `T` that an attribute list dictates.
pub fn build_config<T: GenerateConfig>(attribs: &Vec<ConfigAttribute>) -> (r: T)
    ensures
        r.built_from(attribs@),
{
    T::from_xml(attribs)
}

/// The server-side selection hints of the configuration document.
pub struct ServerConfig {
    pub threadcount: String,
    pub ignoreids: String,
}

impl GenerateConfig for ServerConfig {
    open spec fn built_from(&self, attrs: Seq<ConfigAttribute>) -> bool {
        &&& self.threadcount@ == attr_text(attrs, "threadcount"@)
        &&& self.ignoreids@ == attr_text(attrs, "ignoreids"@)
    }

    fn from_xml(attrs: &Vec<ConfigAttribute>) -> (r: Self) {
        let key_threadcount = String::from_str("threadcount");
        let key_ignoreids = String::from_str("ignoreids");
        let mut threadcount = String::new();
        let mut ignoreids = String::new();
        for i in 0..attrs.len()
            invariant
                key_threadcount@ == "threadcount"@,
                key_ignoreids@ == "ignoreids"@,
                threadcount@ == attr_text(attrs@.subrange(0, i as int), "threadcount"@),
                ignoreids@ == attr_text(attrs@.subrange(0, i as int), "ignoreids"@),
        {
            proof {
                reveal_strlit("threadcount");
                reveal_strlit("ignoreids");
                assert("threadcount"@.len() == 11);
                assert("ignoreids"@.len() == 9);
                assert(attrs@.subrange(0, i + 1).drop_last() =~= attrs@.subrange(0, i as int));
                assert(attrs@.subrange(0, i + 1).last() == attrs@[i as int]);
            }
            if attrs[i].name == key_threadcount {
                threadcount = attrs[i].value.clone();
            } else if attrs[i].name == key_ignoreids {
                ignoreids = attrs[i].value.clone();
            }
        }
        proof {
            assert(attrs@.subrange(0, attrs@.len() as int) =~= attrs@);
        }
        ServerConfig { threadcount, ignoreids }
    }
}

/// The download tuning of the configuration document.
pub struct DownloadConfig {
    pub testlength: u64,
    pub initialtest: String,
    pub mintestsize: String,
    pub threadsperurl: u64,
}

impl GenerateConfig for DownloadConfig {
    open spec fn built_from(&self, attrs: Seq<ConfigAttribute>) -> bool {
        &&& self.testlength == spec_parse_u64_or_zero(attr_text(attrs, "testlength"@))
        &&& self.initialtest@ == attr_text(attrs, "initialtest"@)
        &&& self.mintestsize@ == attr_text(attrs, "mintestsize"@)
        &&& self.threadsperurl == spec_parse_u64_or_zero(attr_text(attrs, "threadsperurl"@))
    }

    fn from_xml(attrs: &Vec<ConfigAttribute>) -> (r: Self) {
        let key_testlength = String::from_str("testlength");
        let key_initialtest = String::from_str("initialtest");
        let key_mintestsize = String::from_str("mintestsize");
        let key_threadsperurl = String::from_str("threadsperurl");
        let mut testlength: u64 = 0;
        let mut initialtest = String::new();
        let mut mintestsize = String::new();
        let mut threadsperurl: u64 = 0;
        for i in 0..attrs.len()
            invariant
                key_testlength@ == "testlength"@,
                key_initialtest@ == "initialtest"@,
                key_mintestsize@ == "mintestsize"@,
                key_threadsperurl@ == "threadsperurl"@,
                testlength == spec_parse_u64_or_zero(
                    attr_text(attrs@.subrange(0, i as int), "testlength"@),
                ),
                initialtest@ == attr_text(attrs@.subrange(0, i as int), "initialtest"@),
                mintestsize@ == attr_text(attrs@.subrange(0, i as int), "mintestsize"@),
                threadsperurl == spec_parse_u64_or_zero(
                    attr_text(attrs@.subrange(0, i as int), "threadsperurl"@),
                ),
        {
            proof {
                reveal_strlit("testlength");
                reveal_strlit("initialtest");
                reveal_strlit("mintestsize");
                reveal_strlit("threadsperurl");
                assert("testlength"@.len() == 10);
                assert("initialtest"@.len() == 11);
                assert("mintestsize"@.len() == 11);
                assert("threadsperurl"@.len() == 13);
                assert("initialtest"@[0] != "mintestsize"@[0]);
                assert(attrs@.subrange(0, i + 1).drop_last() =~= attrs@.subrange(0, i as int));
                assert(attrs@.subrange(0, i + 1).last() == attrs@[i as int]);
            }
            if attrs[i].name == key_testlength {
                testlength = parse_u64_or_zero(attrs[i].value.as_str());
            } else if attrs[i].name == key_initialtest {
                initialtest = attrs[i].value.clone();
            } else if attrs[i].name == key_mintestsize {
                mintestsize = attrs[i].value.clone();
            } else if attrs[i].name == key_threadsperurl {
                threadsperurl = parse_u64_or_zero(attrs[i].value.as_str());
            }
        }
        proof {
            assert(attrs@.subrange(0, attrs@.len() as int) =~= attrs@);
        }
        DownloadConfig { testlength, initialtest, mintestsize, threadsperurl }
    }
}

/// The upload tuning of the configuration document: how many upload workers
/// run, against which payload sizes, and for how long.
pub struct UploadConfig {
    pub testlength: u64,
    pub ratio: u64,
    pub initialtest: String,
    pub mintestsize: String,
    pub threads: u64,
    pub maxchunksize: String,
    pub maxchunkcount: u64,
    pub threadsperurl: u64,
}

impl GenerateConfig for UploadConfig {
    open spec fn built_from(&self, attrs: Seq<ConfigAttribute>) -> bool {
        &&& self.testlength == spec_parse_u64_or_zero(attr_text(attrs, "testlength"@))
        &&& self.ratio == spec_parse_u64_or_zero(attr_text(attrs, "ratio"@))
        &&& self.initialtest@ == attr_text(attrs, "initialtest"@)
        &&& self.mintestsize@ == attr_text(attrs, "mintestsize"@)
        &&& self.threads == spec_parse_u64_or_zero(attr_text(attrs, "threads"@))
        &&& self.maxchunksize@ == attr_text(attrs, "maxchunksize"@)
        &&& self.maxchunkcount == spec_parse_u64_or_zero(attr_text(attrs, "maxchunkcount"@))
        &&& self.threadsperurl == spec_parse_u64_or_zero(attr_text(attrs, "threadsperurl"@))
    }

    fn from_xml(attrs: &Vec<ConfigAttribute>) -> (r: Self) {
        let key_testlength = String::from_str("testlength");
        let key_ratio = String::from_str("ratio");
        let key_initialtest = String::from_str("initialtest");
        let key_mintestsize = String::from_str("mintestsize");
        let key_threads = String::from_str("threads");
        let key_maxchunksize = String::from_str("maxchunksize");
        let key_maxchunkcount = String::from_str("maxchunkcount");
        let key_threadsperurl = String::from_str("threadsperurl");
        let mut testlength: u64 = 0;
        let mut ratio: u64 = 0;
        let mut initialtest = String::new();
        let mut mintestsize = String::new();
        let mut threads: u64 = 0;
        let mut maxchunksize = String::new();
        let mut maxchunkcount: u64 = 0;
        let mut threadsperurl: u64 = 0;
        for i in 0..attrs.len()
            invariant
                key_testlength@ == "testlength"@,
                key_ratio@ == "ratio"@,
                key_initialtest@ == "initialtest"@,
                key_mintestsize@ == "mintestsize"@,
                key_threads@ == "threads"@,
                key_maxchunksize@ == "maxchunksize"@,
                key_maxchunkcount@ == "maxchunkcount"@,
                key_threadsperurl@ == "threadsperurl"@,
                testlength == spec_parse_u64_or_zero(
                    attr_text(attrs@.subrange(0, i as int), "testlength"@),
                ),
                ratio == spec_parse_u64_or_zero(attr_text(attrs@.subrange(0, i as int), "ratio"@)),
                initialtest@ == attr_text(attrs@.subrange(0, i as int), "initialtest"@),
                mintestsize@ == attr_text(attrs@.subrange(0, i as int), "mintestsize"@),
                threads == spec_parse_u64_or_zero(
                    attr_text(attrs@.subrange(0, i as int), "threads"@),
                ),
                maxchunksize@ == attr_text(attrs@.subrange(0, i as int), "maxchunksize"@),
                maxchunkcount == spec_parse_u64_or_zero(
                    attr_text(attrs@.subrange(0, i as int), "maxchunkcount"@),
                ),
                threadsperurl == spec_parse_u64_or_zero(
                    attr_text(attrs@.subrange(0, i as int), "threadsperurl"@),
                ),
        {
            proof {
                reveal_strlit("testlength");
                reveal_strlit("ratio");
                reveal_strlit("initialtest");
                reveal_strlit("mintestsize");
                reveal_strlit("threads");
                reveal_strlit("maxchunksize");
                reveal_strlit("maxchunkcount");
                reveal_strlit("threadsperurl");
                assert("testlength"@.len() == 10);
                assert("ratio"@.len() == 5);
                assert("initialtest"@.len() == 11);
                assert("mintestsize"@.len() == 11);
                assert("threads"@.len() == 7);
                assert("maxchunksize"@.len() == 12);
                assert("maxchunkcount"@.len() == 13);
                assert("threadsperurl"@.len() == 13);
                assert("initialtest"@[0] != "mintestsize"@[0]);
                assert("maxchunkcount"@[0] != "threadsperurl"@[0]);
                assert(attrs@.subrange(0, i + 1).drop_last() =~= attrs@.subrange(0, i as int));
                assert(attrs@.subrange(0, i + 1).last() == attrs@[i as int]);
            }
            if attrs[i].name == key_testlength {
                testlength = parse_u64_or_zero(attrs[i].value.as_str());
            } else if attrs[i].name == key_ratio {
                ratio = parse_u64_or_zero(attrs[i].value.as_str());
            } else if attrs[i].name == key_initialtest {
                initialtest = attrs[i].value.clone();
            } else if attrs[i].name == key_mintestsize {
                mintestsize = attrs[i].value.clone();
            } else if attrs[i].name == key_threads {
                threads = parse_u64_or_zero(attrs[i].value.as_str());
            } else if attrs[i].name == key_maxchunksize {
                maxchunksize = attrs[i].value.clone();
            } else if attrs[i].name == key_maxchunkcount {
                maxchunkcount = parse_u64_or_zero(attrs[i].value.as_str());
            } else if attrs[i].name == key_threadsperurl {
                threadsperurl = parse_u64_or_zero(attrs[i].value.as_str());
            }
        }
        proof {
            assert(attrs@.subrange(0, attrs@.len() as int) =~= attrs@);
        }
        UploadConfig {
            testlength,
            ratio,
            initialtest,
            mintestsize,
            threads,
            maxchunksize,
            maxchunkcount,
            threadsperurl,
        }
    }
}

/// The client profile of the configuration document. Coordinates and the
/// provider rating are kept in microunits, free of floating point.
pub struct ClientConfig {
    pub ip: String,
    pub lat: i64,
    pub lon: i64,
    pub isp: String,
    pub isprating: i64,
    pub ispdlavg: u64,
    pub ispulavg: u64,
}

impl GenerateConfig for ClientConfig {
    open spec fn built_from(&self, attrs: Seq<ConfigAttribute>) -> bool {
        &&& self.ip@ == attr_text(attrs, "ip"@)
        &&& self.lat == spec_parse_micro_or_zero(attr_text(attrs, "lat"@))
        &&& self.lon == spec_parse_micro_or_zero(attr_text(attrs, "lon"@))
        &&& self.isp@ == attr_text(attrs, "isp"@)
        &&& self.isprating == spec_parse_micro_or_zero(attr_text(attrs, "isprating"@))
        &&& self.ispdlavg == spec_parse_u64_or_zero(attr_text(attrs, "ispdlavg"@))
        &&& self.ispulavg == spec_parse_u64_or_zero(attr_text(attrs, "ispulavg"@))
    }

    fn from_xml(attrs: &Vec<ConfigAttribute>) -> (r: Self) {
        let key_ip = String::from_str("ip");
        let key_lat = String::from_str("lat");
        let key_lon = String::from_str("lon");
        let key_isp = String::from_str("isp");
        let key_isprating = String::from_str("isprating");
        let key_ispdlavg = String::from_str("ispdlavg");
        let key_ispulavg = String::from_str("ispulavg");
        let mut ip = String::new();
        let mut lat: i64 = 0;
        let mut lon: i64 = 0;
        let mut isp = String::new();
        let mut isprating: i64 = 0;
        let mut ispdlavg: u64 = 0;
        let mut ispulavg: u64 = 0;
        for i in 0..attrs.len()
            invariant
                key_ip@ == "ip"@,
                key_lat@ == "lat"@,
                key_lon@ == "lon"@,
                key_isp@ == "isp"@,
                key_isprating@ == "isprating"@,
                key_ispdlavg@ == "ispdlavg"@,
                key_ispulavg@ == "ispulavg"@,
                ip@ == attr_text(attrs@.subrange(0, i as int), "ip"@),
                lat == spec_parse_micro_or_zero(attr_text(attrs@.subrange(0, i as int), "lat"@)),
                lon == spec_parse_micro_or_zero(attr_text(attrs@.subrange(0, i as int), "lon"@)),
                isp@ == attr_text(attrs@.subrange(0, i as int), "isp"@),
                isprating == spec_parse_micro_or_zero(
                    attr_text(attrs@.subrange(0, i as int), "isprating"@),
                ),
                ispdlavg == spec_parse_u64_or_zero(
                    attr_text(attrs@.subrange(0, i as int), "ispdlavg"@),
                ),
                ispulavg == spec_parse_u64_or_zero(
                    attr_text(attrs@.subrange(0, i as int), "ispulavg"@),
                ),
        {
            proof {
                reveal_strlit("ip");
                reveal_strlit("lat");
                reveal_strlit("lon");
                reveal_strlit("isp");
                reveal_strlit("isprating");
                reveal_strlit("ispdlavg");
                reveal_strlit("ispulavg");
                assert("ip"@.len() == 2);
                assert("lat"@.len() == 3);
                assert("lon"@.len() == 3);
                assert("isp"@.len() == 3);
                assert("isprating"@.len() == 9);
                assert("ispdlavg"@.len() == 8);
                assert("ispulavg"@.len() == 8);
                assert("lat"@[1] != "lon"@[1]);
                assert("lat"@[0] != "isp"@[0]);
                assert("lon"@[0] != "isp"@[0]);
                assert("ispdlavg"@[3] != "ispulavg"@[3]);
                assert(attrs@.subrange(0, i + 1).drop_last() =~= attrs@.subrange(0, i as int));
                assert(attrs@.subrange(0, i + 1).last() == attrs@[i as int]);
            }
            if attrs[i].name == key_ip {
                ip = attrs[i].value.clone();
            } else if attrs[i].name == key_lat {
                lat = parse_micro_or_zero(attrs[i].value.as_str());
            } else if attrs[i].name == key_lon {
                lon = parse_micro_or_zero(attrs[i].value.as_str());
            } else if attrs[i].name == key_isp {
                isp = attrs[i].value.clone();
            } else if attrs[i].name == key_isprating {
                isprating = parse_micro_or_zero(attrs[i].value.as_str());
            } else if attrs[i].name == key_ispdlavg {
                ispdlavg = parse_u64_or_zero(attrs[i].value.as_str());
            } else if attrs[i].name == key_ispulavg {
                ispulavg = parse_u64_or_zero(attrs[i].value.as_str());
            }
        }
        proof {
            assert(attrs@.subrange(0, attrs@.len() as int) =~= attrs@);
        }
        ClientConfig { ip, lat, lon, isp, isprating, ispdlavg, ispulavg }
    }
}

/// One candidate test server from the catalog. Coordinates are kept in
/// microdegrees so that the record stays free of floating point; the caller
/// scales them down when it feeds the great-circle formula.
pub struct TestServerConfig {
    pub url: String,
    pub latitude: i64,
    pub longitude: i64,
    pub name: String,
    pub country: String,
    pub country_code: String,
    pub id: u64,
    pub url2: String,
    pub host: String,
}

impl Clone for TestServerConfig {
    fn clone(&self) -> (res: Self)
        ensures
            res == *self,
    {
        TestServerConfig {
            url: self.url.clone(),
            latitude: self.latitude,
            longitude: self.longitude,
            name: self.name.clone(),
            country: self.country.clone(),
            country_code: self.country_code.clone(),
            id: self.id,
            url2: self.url2.clone(),
            host: self.host.clone(),
        }
    }
}


impl GenerateConfig for TestServerConfig {
    open spec fn built_from(&self, attrs: Seq<ConfigAttribute>) -> bool {
        &&& self.url@ == attr_text(attrs, "url"@)
        &&& self.latitude == spec_parse_micro_or_zero(attr_text(attrs, "lat"@))
        &&& self.longitude == spec_parse_micro_or_zero(attr_text(attrs, "lon"@))
        &&& self.name@ == attr_text(attrs, "name"@)
        &&& self.country@ == attr_text(attrs, "country"@)
        &&& self.country_code@ == attr_text(attrs, "cc"@)
        &&& self.id == spec_parse_u64_or_zero(attr_text(attrs, "id"@))
        &&& self.url2@ == attr_text(attrs, "url2"@)
        &&& self.host@ == attr_text(attrs, "host"@)
    }

    fn from_xml(attrs: &Vec<ConfigAttribute>) -> (r: Self) {
        let key_url = String::from_str("url");
        let key_lat = String::from_str("lat");
        let key_lon = String::from_str("lon");
        let key_name = String::from_str("name");
        let key_country = String::from_str("country");
        let key_cc = String::from_str("cc");
        let key_id = String::from_str("id");
        let key_url2 = String::from_str("url2");
        let key_host = String::from_str("host");
        let mut url = String::new();
        let mut latitude: i64 = 0;
        let mut longitude: i64 = 0;
        let mut name = String::new();
        let mut country = String::new();
        let mut country_code = String::new();
        let mut id: u64 = 0;
        let mut url2 = String::new();
        let mut host = String::new();
        for i in 0..attrs.len()
            invariant
                key_url@ == "url"@,
                key_lat@ == "lat"@,
                key_lon@ == "lon"@,
                key_name@ == "name"@,
                key_country@ == "country"@,
                key_cc@ == "cc"@,
                key_id@ == "id"@,
                key_url2@ == "url2"@,
                key_host@ == "host"@,
                url@ == attr_text(attrs@.subrange(0, i as int), "url"@),
                latitude == spec_parse_micro_or_zero(
                    attr_text(attrs@.subrange(0, i as int), "lat"@),
                ),
                longitude == spec_parse_micro_or_zero(
                    attr_text(attrs@.subrange(0, i as int), "lon"@),
                ),
                name@ == attr_text(attrs@.subrange(0, i as int), "name"@),
                country@ == attr_text(attrs@.subrange(0, i as int), "country"@),
                country_code@ == attr_text(attrs@.subrange(0, i as int), "cc"@),
                id == spec_parse_u64_or_zero(attr_text(attrs@.subrange(0, i as int), "id"@)),
                url2@ == attr_text(attrs@.subrange(0, i as int), "url2"@),
                host@ == attr_text(attrs@.subrange(0, i as int), "host"@),
        {
            proof {
                reveal_strlit("url");
                reveal_strlit("lat");
                reveal_strlit("lon");
                reveal_strlit("name");
                reveal_strlit("country");
                reveal_strlit("cc");
                reveal_strlit("id");
                reveal_strlit("url2");
                reveal_strlit("host");
                assert("url"@.len() == 3);
                assert("lat"@.len() == 3);
                assert("lon"@.len() == 3);
                assert("name"@.len() == 4);
                assert("country"@.len() == 7);
                assert("cc"@.len() == 2);
                assert("id"@.len() == 2);
                assert("url2"@.len() == 4);
                assert("host"@.len() == 4);
                assert("url"@[0] != "lat"@[0]);
                assert("url"@[0] != "lon"@[0]);
                assert("lat"@[1] != "lon"@[1]);
                assert("cc"@[0] != "id"@[0]);
                assert("name"@[0] != "host"@[0]);
                assert("name"@[0] != "url2"@[0]);
                assert("host"@[0] != "url2"@[0]);
                assert(attrs@.subrange(0, i + 1).drop_last() =~= attrs@.subrange(0, i as int));
                assert(attrs@.subrange(0, i + 1).last() == attrs@[i as int]);
            }
            if attrs[i].name == key_url {
                url = attrs[i].value.clone();
            } else if attrs[i].name == key_lat {
                latitude = parse_micro_or_zero(attrs[i].value.as_str());
            } else if attrs[i].name == key_lon {
                longitude = parse_micro_or_zero(attrs[i].value.as_str());
            } else if attrs[i].name == key_name {
                name = attrs[i].value.clone();
            } else if attrs[i].name == key_country {
                country = attrs[i].value.clone();
            } else if attrs[i].name == key_cc {
                country_code = attrs[i].value.clone();
            } else if attrs[i].name == key_id {
                id = parse_u64_or_zero(attrs[i].value.as_str());
            } else if attrs[i].name == key_url2 {
                url2 = attrs[i].value.clone();
            } else if attrs[i].name == key_host {
                host = attrs[i].value.clone();
            }
        }
        proof {
            assert(attrs@.subrange(0, attrs@.len() as int) =~= attrs@);
        }
        TestServerConfig {
            url,
            latitude,
            longitude,
            name,
            country,
            country_code,
            id,
            url2,
            host,
        }
    }
}

/// One element of the configuration document: its name and its attributes.
pub struct ConfigElement {
    pub name: String,
    pub attributes: Vec<ConfigAttribute>,
}

/// The attribute list of the last element called `name`.
pub open spec fn last_section(elems: Seq<ConfigElement>, name: Seq<char>) -> Option<
    Seq<ConfigAttribute>,
>
    decreases elems.len(),
{
    if elems.len() == 0 {
        None
    } else if elems.last().name@ == name {
        Some(elems.last().attributes@)
    } else {
        last_section(elems.drop_last(), name)
    }
}

/// The attribute list of the last element called `name`, or an empty list
/// where no such element occurs: the section then keeps every default.
pub open spec fn section_attrs(elems: Seq<ConfigElement>, name: Seq<char>) -> Seq<ConfigAttribute> {
    match last_section(elems, name) {
        Some(attrs) => attrs,
        None => Seq::empty(),
    }
}

/// The four tuning sections of the remote configuration document, with a
/// flag saying whether a document was parsed at all.
pub struct FullConfig {
    pub client: ClientConfig,
    pub server: ServerConfig,
    pub download: DownloadConfig,
    pub upload: UploadConfig,
    pub parsing_succeeded: bool,
}

impl FullConfig {
    /// The configuration a parsed document dictates: each section comes
    /// from the attributes of its element, the last such element winning,
    /// and a missing section keeps every default.
    pub fn from_elements(elements: &Vec<ConfigElement>) -> (r: FullConfig)
        ensures
            r.client.built_from(section_attrs(elements@, "client"@)),
            r.server.built_from(section_attrs(elements@, "server-config"@)),
            r.download.built_from(section_attrs(elements@, "download"@)),
            r.upload.built_from(section_attrs(elements@, "upload"@)),
            r.parsing_succeeded,
    {
        let key_client = String::from_str("client");
        let key_server = String::from_str("server-config");
        let key_download = String::from_str("download");
        let key_upload = String::from_str("upload");
        let no_attrs: Vec<ConfigAttribute> = Vec::new();
        let mut client = ClientConfig::from_xml(&no_attrs);
        let mut server = ServerConfig::from_xml(&no_attrs);
        let mut download = DownloadConfig::from_xml(&no_attrs);
        let mut upload = UploadConfig::from_xml(&no_attrs);
        for i in 0..elements.len()
            invariant
                key_client@ == "client"@,
                key_server@ == "server-config"@,
                key_download@ == "download"@,
                key_upload@ == "upload"@,
                client.built_from(section_attrs(elements@.subrange(0, i as int), "client"@)),
                server.built_from(section_attrs(elements@.subrange(0, i as int), "server-config"@)),
                download.built_from(section_attrs(elements@.subrange(0, i as int), "download"@)),
                upload.built_from(section_attrs(elements@.subrange(0, i as int), "upload"@)),
        {
            proof {
                reveal_strlit("client");
                reveal_strlit("server-config");
                reveal_strlit("download");
                reveal_strlit("upload");
                assert("client"@.len() == 6);
                assert("server-config"@.len() == 13);
                assert("download"@.len() == 8);
                assert("upload"@.len() == 6);
                assert("client"@[0] != "upload"@[0]);
                assert(elements@.subrange(0, i + 1).drop_last() =~= elements@.subrange(
                    0,
                    i as int,
                ));
                assert(elements@.subrange(0, i + 1).last() == elements@[i as int]);
            }
            if elements[i].name == key_client {
                client = ClientConfig::from_xml(&elements[i].attributes);
            } else if elements[i].name == key_server {
                server = ServerConfig::from_xml(&elements[i].attributes);
            } else if elements[i].name == key_download {
                download = DownloadConfig::from_xml(&elements[i].attributes);
            } else if elements[i].name == key_upload {
                upload = UploadConfig::from_xml(&elements[i].attributes);
            }
        }
        proof {
            assert(elements@.subrange(0, elements@.len() as int) =~= elements@);
        }
        FullConfig { client, server, download, upload, parsing_succeeded: true }
    }

    /// The configuration of a run whose document never arrived: every
    /// section keeps its defaults and the flag says the fetch is still owed.
    pub fn empty() -> (r: FullConfig)
        ensures
            r.client.built_from(Seq::empty()),
            r.server.built_from(Seq::empty()),
            r.download.built_from(Seq::empty()),
            r.upload.built_from(Seq::empty()),
            !r.parsing_succeeded,
    {
        let no_attrs: Vec<ConfigAttribute> = Vec::new();
        FullConfig {
            client: ClientConfig::from_xml(&no_attrs),
            server: ServerConfig::from_xml(&no_attrs),
            download: DownloadConfig::from_xml(&no_attrs),
            upload: UploadConfig::from_xml(&no_attrs),
            parsing_succeeded: false,
        }
    }
}


/// Whether `d` is the position of the first comma of `s`.
pub open spec fn first_comma(s: Seq<char>, d: int) -> bool {
    &&& 0 <= d < s.len()
    &&& s[d] == ','
    &&& forall|t: int| 0 <= t < d ==> s[t] != ','
}

/// The ids one comma-separated segment contributes: its parsed value, or
/// nothing where it is not a well-formed number.
pub open spec fn segment_ids(seg: Seq<char>) -> Seq<u64> {
    match crate::utils::spec_parse_u64(seg) {
        Some(v) => seq![v],
        None => Seq::empty(),
    }
}

/// The ids a comma-separated ignore list denotes, segment by segment,
/// malformed segments contributing nothing.
pub open spec fn spec_ignore_ids(s: Seq<char>) -> Seq<u64>
    decreases s.len(),
{
    if exists|d: int| first_comma(s, d) {
        let d = choose|d: int| first_comma(s, d);
        segment_ids(s.subrange(0, d)) + spec_ignore_ids(s.subrange(d + 1, s.len() as int))
    } else {
        segment_ids(s)
    }
}

/// Position of the first comma of `s` at or after `from`, if any.
fn find_comma_from(s: &str, from: usize) -> (r: Option<usize>)
    requires
        from <= s@.len(),
    ensures
        r matches Some(d) ==> from <= d < s@.len() && s@[d as int] == ',' && (forall|t: int|
            from <= t < d ==> s@[t] != ','),
        r is None ==> forall|t: int| from <= t < s@.len() ==> s@[t] != ',',
{
    let len = s.unicode_len();
    let mut j = from;
    while j < len
        invariant
            from <= j <= len,
            len == s@.len(),
            forall|t: int| from <= t < j ==> s@[t] != ',',
        decreases len - j,
    {
        if s.get_char(j) == ',' {
            return Some(j);
        }
        j = j + 1;
    }
    None
}

/// The server ids the configuration document recommends excluding: its
/// comma-separated ignore list, parsed segment by segment, in order, each
/// malformed segment dropped.
pub fn find_ignore_ids(ignore_list: &str) -> (ids: Vec<u64>)
    ensures
        ids@ == spec_ignore_ids(ignore_list@),
{
    let len = ignore_list.unicode_len();
    let mut ids: Vec<u64> = Vec::new();
    let mut pos: usize = 0;
    proof {
        assert(ignore_list@.subrange(0, len as int) =~= ignore_list@);
        assert(Seq::<u64>::empty() + spec_ignore_ids(ignore_list@) =~= spec_ignore_ids(
            ignore_list@,
        ));
    }
    loop
        invariant_except_break
            pos <= len,
            len == ignore_list@.len(),
            spec_ignore_ids(ignore_list@) == ids@ + spec_ignore_ids(
                ignore_list@.subrange(pos as int, len as int),
            ),
        ensures
            ids@ == spec_ignore_ids(ignore_list@),
        decreases len - pos,
    {
        let ghost suffix = ignore_list@.subrange(pos as int, len as int);
        match find_comma_from(ignore_list, pos) {
            None => {
                let seg = ignore_list.substring_char(pos, len);
                proof {
                    assert forall|d: int| !first_comma(suffix, d) by {
                        if 0 <= d < suffix.len() {
                            assert(suffix[d] == ignore_list@[pos + d]);
                        }
                    }
                    assert(seg@ =~= suffix);
                }
                match crate::utils::parse_u64(seg) {
                    Some(v) => {
                        ids.push(v);
                        proof {
                            assert(ids@ =~= spec_ignore_ids(ignore_list@));
                        }
                    },
                    None => {
                        proof {
                            assert(ids@ + segment_ids(suffix) =~= ids@);
                        }
                    },
                }
                break;
            },
            Some(d) => {
                let seg = ignore_list.substring_char(pos, d);
                let ghost old_ids = ids@;
                proof {
                    assert(seg@ =~= ignore_list@.subrange(pos as int, d as int));
                    assert(suffix[d - pos] == ignore_list@[d as int]);
                    assert forall|t: int| 0 <= t < d - pos implies suffix[t] != ',' by {
                        assert(suffix[t] == ignore_list@[pos + t]);
                    }
                    assert(first_comma(suffix, d - pos));
                    let cd = choose|cd: int| first_comma(suffix, cd);
                    if cd < d - pos {
                        assert(suffix[cd] != ',');
                    } else if cd > d - pos {
                        assert(suffix[d - pos] != ',');
                    }
                    assert(cd == d - pos);
                    assert(suffix.subrange(0, d - pos) =~= ignore_list@.subrange(
                        pos as int,
                        d as int,
                    ));
                    assert(suffix.subrange(d - pos + 1, suffix.len() as int)
                        =~= ignore_list@.subrange(d + 1, len as int));
                    assert(spec_ignore_ids(suffix) == segment_ids(seg@) + spec_ignore_ids(
                        ignore_list@.subrange(d + 1, len as int),
                    ));
                }
                match crate::utils::parse_u64(seg) {
                    Some(v) => {
                        ids.push(v);
                        proof {
                            assert(ids@ =~= old_ids + segment_ids(seg@));
                        }
                    },
                    None => {
                        proof {
                            assert(ids@ =~= old_ids + segment_ids(seg@));
                        }
                    },
                }
                proof {
                    assert((old_ids + segment_ids(seg@)) + spec_ignore_ids(
                        ignore_list@.subrange(d + 1, len as int),
                    ) =~= old_ids + (segment_ids(seg@) + spec_ignore_ids(
                        ignore_list@.subrange(d + 1, len as int),
                    )));
                }
                pos = d + 1;
            },
        }
    }
    ids
}

} // verus!
