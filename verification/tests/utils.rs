use std::future::Future;
use std::pin::Pin;
use std::task::Poll;
use std::time::Duration;
use ttsmagic::urls::Url;
use ttsmagic::utils::async_par_stream::AsyncParallelStream;
use ttsmagic::utils::futures::{Polled, PoolState, PoolStep, Termination};
use ttsmagic::utils::surf_redirect_middleware::{
    RedirectMiddleware, RedirectMiddlewareError, Redirects,
};

type F = Pin<Box<dyn Future<Output = Result<usize, ()>> + Send>>;

fn make_futures() -> (F, F, F, F) {
    (
        Box::pin(async_std::future::ready(Ok(0))),
        Box::pin(async {
            async_std::task::sleep(Duration::from_millis(100)).await;
            Ok(1)
        }),
        Box::pin(async {
            async_std::task::sleep(Duration::from_millis(200)).await;
            Ok(2)
        }),
        Box::pin(async {
            async_std::future::timeout(Duration::from_millis(400), async_std::future::pending())
                .await
                .map_err(|_| ())
        }),
    )
}

fn start(
    ids: Vec<usize>,
    waiting: &mut Vec<Option<F>>,
    handles: &mut Vec<async_std::task::JoinHandle<Result<usize, ()>>>,
) {
    for id in ids {
        assert_eq!(id, handles.len());
        handles.push(async_std::task::spawn(waiting[id].take().unwrap()));
    }
}

fn collect(parallelism: usize, futures: Vec<F>) -> Vec<Result<usize, ()>> {
    let (mut stream, started) = AsyncParallelStream::new(parallelism, futures.len());
    let mut waiting: Vec<Option<F>> = futures.into_iter().map(Some).collect();
    let mut handles = vec![];
    start(started, &mut waiting, &mut handles);
    let mut out = vec![];
    async_std::task::block_on(async {
        loop {
            let next = futures::future::poll_fn(|cx| {
                if stream.is_idle() {
                    return Poll::Ready(None);
                }
                let mut polled = vec![];
                for id in stream.running() {
                    polled.push(match Pin::new(&mut handles[id]).poll(cx) {
                        Poll::Ready(value) => Some(value),
                        Poll::Pending => None,
                    });
                }
                let (value, started) = stream.poll_next(polled);
                start(started, &mut waiting, &mut handles);
                match value {
                    Some(v) => Poll::Ready(Some(v)),
                    None => Poll::Pending,
                }
            })
            .await;
            match next {
                Some(v) => out.push(v),
                None => break,
            }
        }
    });
    out
}

#[test]
fn test_ordering() {
    let expected = vec![Ok(0), Ok(1), Ok(2), Err(())];
    for a in 0..4usize {
        for b in 0..4usize {
            for c in 0..4usize {
                for d in 0..4usize {
                    let mut sorted = vec![a, b, c, d];
                    sorted.sort();
                    if sorted != vec![0, 1, 2, 3] {
                        continue;
                    }
                    println!("Checking permutation ({}, {}, {}, {})", a, b, c, d);
                    let (fa, fb, fc, fd) = make_futures();
                    let mut slots = [None, None, None, None];
                    slots[a] = Some(fa);
                    slots[b] = Some(fb);
                    slots[c] = Some(fc);
                    slots[d] = Some(fd);
                    let futures = slots.into_iter().map(Option::unwrap).collect();
                    assert_eq!(collect(4, futures), expected);
                }
            }
        }
    }
}

#[test]
fn one_task_at_a_time() {
    let (a, b, c, d) = make_futures();
    assert_eq!(collect(1, vec![d, c, b, a]), vec![Err(()), Ok(2), Ok(1), Ok(0)]);
    assert_eq!(collect(3, vec![]), vec![]);
}

#[test]
fn tasks_stay_within_bounds() {
    let (mut s, started): (AsyncParallelStream<char>, Vec<usize>) = AsyncParallelStream::new(2, 3);
    assert_eq!(started, vec![0, 1]);
    assert_eq!(s.running(), vec![0, 1]);
    assert!(!s.is_idle());
    assert_eq!(s.poll_next(vec![None, Some('b')]), (Some('b'), vec![2]));
    assert_eq!(s.running(), vec![0, 2]);
    assert_eq!(s.poll_next(vec![Some('a'), Some('c')]), (Some('a'), vec![]));
    assert!(!s.is_idle());
    assert_eq!(s.poll_next(vec![]), (Some('c'), vec![]));
    assert!(s.is_idle());
    assert_eq!(s.poll_next(vec![]), (None, vec![]));
}

#[test]
fn streams_end_once() {
    let mut t = Termination::new();
    t.polled(&None::<Option<u8>>);
    t.polled(&Some(Some(1u8)));
    assert!(!t.is_terminated());
    t.polled(&Some(None::<u8>));
    t.polled(&Some(Some(1u8)));
    assert!(t.is_terminated());
}

#[test]
fn pools_run_down() {
    let mut p = PoolState { tasks: 3 };
    assert_eq!(p.next(), PoolStep::Poll(2));
    assert_eq!(p.polled(Polled::Finished), PoolStep::Poll(1));
    assert_eq!(p.polled(Polled::Pending), PoolStep::Wait);
    assert_eq!(p.tasks, 2);
    assert_eq!(p.polled(Polled::Failed), PoolStep::Failed);
    assert_eq!(p.polled(Polled::Finished), PoolStep::Finished);
    assert_eq!(p.next(), PoolStep::Finished);
}

fn to(s: &str) -> Vec<String> {
    vec![s.to_string(), "https://ignored.org/".to_string()]
}

#[test]
fn answers_are_followed() {
    let m = RedirectMiddleware::new();
    assert_eq!(m.limit, 5);
    let mut r = Redirects::new(Url::parse("https://a.org/").unwrap());
    assert!(matches!(r.answered(&m, 307, &to("https://b.org/")), Ok(true)));
    assert_eq!((r.url.as_str(), r.by_get), ("https://b.org/", false));
    assert!(matches!(r.answered(&m, 302, &to("https://c.org/x")), Ok(true)));
    assert_eq!((r.url.as_str(), r.by_get, r.redirects), ("https://c.org/x", true, 2));
    assert!(matches!(r.answered(&m, 200, &vec![]), Ok(false)));
    assert!(matches!(r.answered(&m, 404, &vec![]), Ok(false)));
    assert!(r.may_go_on(&m));
    assert!(!r.may_go_on(&RedirectMiddleware::new_with_limit(2)));
}

#[test]
fn broken_answers_are_refused() {
    let m = RedirectMiddleware::new();
    let mut r = Redirects::new(Url::parse("https://a.org/").unwrap());
    let e = r.answered(&m, 301, &vec![]).unwrap_err();
    assert!(matches!(&e, RedirectMiddlewareError::MissingLocationHeader(u) if u.as_str() == "https://a.org/"));
    assert_eq!(e.to_text(), "Missing 'Location' header in redirect response for URL https://a.org/");
    let e = r.answered(&m, 301, &to("/relative")).unwrap_err();
    assert!(matches!(&e, RedirectMiddlewareError::BadLocationValue(s) if s == "/relative"));
    assert_eq!(e.to_text(), "Bad 'Location' header URL /relative");
}
