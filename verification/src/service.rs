//! The storage services that can be mounted, and the names they go by.
use vstd::prelude::*;
use vstd::string::*;

verus! {

/// A storage service.
#[derive(Clone, Copy, Debug, PartialEq, Eq, Structural)]
pub enum Service {
    /// `b2`
    B2,
    /// `ftp`
    Ftp,
    /// `swift`
    Swift,
    /// `azblob`
    Azblob,
    /// `azdls`
    Azdls,
    /// `azfile`
    Azfile,
    /// `cos`
    Cos,
    /// `fs`
    Fs,
    /// `dropbox`
    Dropbox,
    /// `gdrive`
    Gdrive,
    /// `gcs`
    Gcs,
    /// `ghac`
    Ghac,
    /// `http`
    Http,
    /// `ipmfs`
    Ipmfs,
    /// `memory`
    Memory,
    /// `obs`
    Obs,
    /// `onedrive`
    Onedrive,
    /// `oss`
    Oss,
    /// `pcloud`
    Pcloud,
    /// `s3`
    S3,
    /// `webdav`
    Webdav,
    /// `webhdfs`
    Webhdfs,
    /// `yandex-disk`
    YandexDisk,
    /// `sftp`
    Sftp,
}

impl Service {
    /// The name that the service goes by.
    pub open spec fn scheme(self) -> Seq<char> {
        match self {
            Service::B2 => "b2"@,
            Service::Ftp => "ftp"@,
            Service::Swift => "swift"@,
            Service::Azblob => "azblob"@,
            Service::Azdls => "azdls"@,
            Service::Azfile => "azfile"@,
            Service::Cos => "cos"@,
            Service::Fs => "fs"@,
            Service::Dropbox => "dropbox"@,
            Service::Gdrive => "gdrive"@,
            Service::Gcs => "gcs"@,
            Service::Ghac => "ghac"@,
            Service::Http => "http"@,
            Service::Ipmfs => "ipmfs"@,
            Service::Memory => "memory"@,
            Service::Obs => "obs"@,
            Service::Onedrive => "onedrive"@,
            Service::Oss => "oss"@,
            Service::Pcloud => "pcloud"@,
            Service::S3 => "s3"@,
            Service::Webdav => "webdav"@,
            Service::Webhdfs => "webhdfs"@,
            Service::YandexDisk => "yandex-disk"@,
            Service::Sftp => "sftp"@,
        }
    }

    /// The name that the service goes by.
    pub fn name(self) -> (r: &'static str)
        ensures
            r@ == self.scheme(),
    {
        match self {
            Service::B2 => "b2",
            Service::Ftp => "ftp",
            Service::Swift => "swift",
            Service::Azblob => "azblob",
            Service::Azdls => "azdls",
            Service::Azfile => "azfile",
            Service::Cos => "cos",
            Service::Fs => "fs",
            Service::Dropbox => "dropbox",
            Service::Gdrive => "gdrive",
            Service::Gcs => "gcs",
            Service::Ghac => "ghac",
            Service::Http => "http",
            Service::Ipmfs => "ipmfs",
            Service::Memory => "memory",
            Service::Obs => "obs",
            Service::Onedrive => "onedrive",
            Service::Oss => "oss",
            Service::Pcloud => "pcloud",
            Service::S3 => "s3",
            Service::Webdav => "webdav",
            Service::Webhdfs => "webhdfs",
            Service::YandexDisk => "yandex-disk",
            Service::Sftp => "sftp",
        }
    }
}

/// No two services go by one name.
pub proof fn law_names_differ(a: Service, b: Service)
    requires
        a.scheme() == b.scheme(),
    ensures
        a == b,
{
    reveal_strlit("b2");
    reveal_strlit("ftp");
    reveal_strlit("swift");
    reveal_strlit("azblob");
    reveal_strlit("azdls");
    reveal_strlit("azfile");
    reveal_strlit("cos");
    reveal_strlit("fs");
    reveal_strlit("dropbox");
    reveal_strlit("gdrive");
    reveal_strlit("gcs");
    reveal_strlit("ghac");
    reveal_strlit("http");
    reveal_strlit("ipmfs");
    reveal_strlit("memory");
    reveal_strlit("obs");
    reveal_strlit("onedrive");
    reveal_strlit("oss");
    reveal_strlit("pcloud");
    reveal_strlit("s3");
    reveal_strlit("webdav");
    reveal_strlit("webhdfs");
    reveal_strlit("yandex-disk");
    reveal_strlit("sftp");
    let x = a.scheme();
    let y = b.scheme();
    assert(x.len() == y.len());
    assert(x[0] == y[0]);
    assert(x[x.len() - 1] == y[y.len() - 1]);
    assert(x.len() > 1 ==> x[1] == y[1]);
    assert(x.len() > 2 ==> x[2] == y[2]);
    assert(x.len() > 3 ==> x[3] == y[3]);
}

/// The names are those under which OpenDAL knows the services.
pub proof fn law_services_go_by_their_names()
    ensures
        Service::B2.scheme() == "b2"@,
        Service::Ftp.scheme() == "ftp"@,
        Service::Swift.scheme() == "swift"@,
        Service::Azblob.scheme() == "azblob"@,
        Service::Azdls.scheme() == "azdls"@,
        Service::Azfile.scheme() == "azfile"@,
        Service::Cos.scheme() == "cos"@,
        Service::Fs.scheme() == "fs"@,
        Service::Dropbox.scheme() == "dropbox"@,
        Service::Gdrive.scheme() == "gdrive"@,
        Service::Gcs.scheme() == "gcs"@,
        Service::Ghac.scheme() == "ghac"@,
        Service::Http.scheme() == "http"@,
        Service::Ipmfs.scheme() == "ipmfs"@,
        Service::Memory.scheme() == "memory"@,
        Service::Obs.scheme() == "obs"@,
        Service::Onedrive.scheme() == "onedrive"@,
        Service::Oss.scheme() == "oss"@,
        Service::Pcloud.scheme() == "pcloud"@,
        Service::S3.scheme() == "s3"@,
        Service::Webdav.scheme() == "webdav"@,
        Service::Webhdfs.scheme() == "webhdfs"@,
        Service::YandexDisk.scheme() == "yandex-disk"@,
        Service::Sftp.scheme() == "sftp"@,
{
}

} // verus!
