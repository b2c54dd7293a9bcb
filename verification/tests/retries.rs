use std::fmt;
use std::sync::atomic::{AtomicUsize, Ordering};
use std::sync::Arc;

use opendal::raw::{
    Access, Layer, LayeredAccess, OpList, OpRead, OpStat, OpWrite, RpDelete, RpList,
    RpRead, RpStat, RpWrite,
};
use opendal::{Error, ErrorKind, Operator, Result};
use opendal_ext::config::{OpenDALConfig, Scheme};
use opendal_ext::service::Service;
use opendal_ext::table::Table;
use opendal_ext::RetrySetting;

/// A layer below which every `stat` fails for the moment; it counts them.
struct Flaky {
    calls: Arc<AtomicUsize>,
}

struct FlakyAccessor<A> {
    inner: A,
    calls: Arc<AtomicUsize>,
}

impl<A> fmt::Debug for FlakyAccessor<A> {
    fn fmt(&self, f: &mut fmt::Formatter<'_>) -> fmt::Result {
        f.debug_struct("FlakyAccessor").finish_non_exhaustive()
    }
}

impl<A: Access> Layer<A> for Flaky {
    type LayeredAccess = FlakyAccessor<A>;

    fn layer(&self, inner: A) -> Self::LayeredAccess {
        FlakyAccessor {
            inner,
            calls: self.calls.clone(),
        }
    }
}

impl<A: Access> LayeredAccess for FlakyAccessor<A> {
    type Inner = A;
    type Reader = A::Reader;
    type Writer = A::Writer;
    type Lister = A::Lister;
    type Deleter = A::Deleter;
    type Copier = A::Copier;

    fn inner(&self) -> &Self::Inner {
        &self.inner
    }

    async fn stat(&self, _path: &str, _args: OpStat) -> Result<RpStat> {
        self.calls.fetch_add(1, Ordering::SeqCst);
        Err(Error::new(ErrorKind::Unexpected, "not now").set_temporary())
    }

    async fn read(&self, path: &str, args: OpRead) -> Result<(RpRead, Self::Reader)> {
        self.inner.read(path, args).await
    }

    async fn write(&self, path: &str, args: OpWrite) -> Result<(RpWrite, Self::Writer)> {
        self.inner.write(path, args).await
    }

    async fn delete(&self) -> Result<(RpDelete, Self::Deleter)> {
        self.inner.delete().await
    }

    async fn list(&self, path: &str, args: OpList) -> Result<(RpList, Self::Lister)> {
        self.inner.list(path, args).await
    }
}

fn attempts(retry: RetrySetting) -> usize {
    let calls = Arc::new(AtomicUsize::new(0));
    let base = Operator::new(opendal::services::Memory::default())
        .unwrap()
        .layer(Flaky {
            calls: calls.clone(),
        })
        .finish();
    let config =
        OpenDALConfig::from(Scheme::new(Service::Memory, Table::new())).retry(retry);
    let op = config.layered(Ok(base)).unwrap();
    let runtime = tokio::runtime::Builder::new_current_thread()
        .enable_all()
        .build()
        .unwrap();
    assert!(runtime.block_on(op.stat("a.txt")).is_err());
    calls.load(Ordering::SeqCst)
}

#[test]
fn a_call_is_repeated_as_often_as_the_setting_says() {
    assert_eq!(attempts(RetrySetting::Disabled), 1);
    assert_eq!(attempts(RetrySetting::Count(0)), 1);
    assert_eq!(attempts(RetrySetting::Count(1)), 2);
}
