<?xml version="1.0" encoding="UTF-8"?>
<interface>
  <requires lib="gtk" version="4.10"/>
  <object class="GtkBox" id="gap">
    <property name="orientation">vertical</property>
    <property name="vexpand">true</property>
    <property name="hexpand">false</property>
    <property name="width-request">4</property>
    <style><class name="multi-chat-between-slot"/></style>
    <child><object class="GtkBox">
      <property name="halign">center</property>
      <property name="vexpand">true</property>
      <style><class name="multi-chat-between-slot-indicator"/></style>
    </object></child>
  </object>
</interface>
