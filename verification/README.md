# nanoleaf_aws_terminator

Light panels that stand for cloud resources. Instances are shown in yellow, tables in blue and
buckets in green; a touch on a lit panel terminates what it stands for and turns the panel off.

The library in `src/` is written in Verus. It decides what is done and when, and each of its
functions has a contract that is proved:

* `display` pairs lit panels with resources, in a two-way map of the `bimap` crate
* `board` moves panels between the display and the free panels; `room` states when these are enough
* `frame` writes the text that lights the panels, and `legible` shows that the text can be read back
* `touch`, `ec2`, `s3`, `dynamodb` and `show` are the tasks, each as a step from a state and a signal
  to the next state and the work to be done
* `controller`, `panel`, `tasklog` and `text` hold the addresses, commands, reports and texts
* `laws` states what holds of the board and its frames, `passes` what a pass of a task leaves of the
  board, `tasks` what holds of the tasks together, and `rounds` what a pass does in a run of them

`app/` performs the work: it runs the tasks, talks to the controller, calls the service that a
resource belongs to, and colors and prints the messages.
