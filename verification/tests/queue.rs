use rust_exercises::queue::{BackgroundTask, Queue};

#[test]
fn test_queue_enqueue_and_dequeue() {
    let mut queue = Queue::new();

    queue.enqueue(10);
    queue.enqueue(20);
    queue.enqueue(30);

    assert_eq!(queue.len(), 3);
    assert!(!queue.is_empty());

    assert_eq!(queue.dequeue(), Some(10));
    assert_eq!(queue.dequeue(), Some(20));
    assert_eq!(queue.dequeue(), Some(30));

    assert_eq!(queue.len(), 0);
    assert!(queue.is_empty());
    assert_eq!(queue.dequeue(), None);
}

#[test]
fn test_queue_peek_and_empty() {
    let mut queue = Queue::new();

    assert!(queue.is_empty());
    assert_eq!(queue.len(), 0);
    assert_eq!(queue.peek(), None);

    queue.enqueue("Hello");
    queue.enqueue("World");

    assert_eq!(queue.peek(), Some(&"Hello"));
    assert_eq!(queue.len(), 2);

    queue.dequeue();
    assert_eq!(queue.peek(), Some(&"World"));
    assert_eq!(queue.len(), 1);

    queue.dequeue();
    assert!(queue.is_empty());
    assert_eq!(queue.peek(), None);
}

#[test]
fn test_background_task_add_and_execute() {
    let mut bg = BackgroundTask::new();

    bg.add("Task 1");
    bg.add("Task 2");
    bg.add("Task 3");

    let done = bg.execute();
    assert_eq!(done, vec!["Task 1", "Task 2", "Task 3"]);

    let again = bg.execute();
    assert!(again.is_empty());
}

#[test]
fn test_background_task_with_numbers() {
    let mut bg = BackgroundTask::new();

    bg.add(100);
    bg.add(200);
    bg.add(300);

    assert_eq!(bg.execute(), vec![100, 200, 300]);

    bg.add(400);
    assert_eq!(bg.execute(), vec![400]);
}

#[test]
fn queue_interleaved_operations_keep_fifo_order() {
    let mut queue = Queue::new();
    queue.enqueue(1);
    queue.enqueue(2);
    assert_eq!(queue.dequeue(), Some(1));
    queue.enqueue(3);
    assert_eq!(queue.peek(), Some(&2));
    assert_eq!(queue.dequeue(), Some(2));
    assert_eq!(queue.dequeue(), Some(3));
    assert_eq!(queue.dequeue(), None);
    assert_eq!(queue.len(), 0);
}

#[test]
fn queue_enqueue_into_empty_then_dequeue_gives_it_back() {
    let mut queue: Queue<char> = Queue::new();
    queue.enqueue('x');
    assert_eq!(queue.peek(), Some(&'x'));
    assert_eq!(queue.dequeue(), Some('x'));
    assert!(queue.is_empty());
}
